//! The symbol table: one left-to-right pass over the token sequence that
//! binds `.define` names to constants and labels to instruction
//! addresses. A label's address is the number of instruction lines before
//! its marker, so forward references resolve exactly as backward ones.

use vstd::prelude::*;

use crate::errors::AsmError;
use crate::token::Token;
use crate::token::TokenV;
use crate::token::str_eq;
use crate::token::tokens_view;

verus! {

/// What a symbol is bound to.
#[derive(Debug, Clone, Copy, PartialEq, Eq, Structural)]
pub enum SymbolValue {
    /// A `.define` constant.
    Constant(u8),
    /// A label: the address of the instruction after its marker.
    Address(usize),
}

/// One binding of the table.
struct Binding {
    name: String,
    value: SymbolValue,
}

/// The symbol table, in binding order.
pub struct SymbolTable {
    entries: Vec<Binding>,
}

impl View for SymbolTable {
    type V = Seq<(Seq<char>, SymbolValue)>;

    closed spec fn view(&self) -> Seq<(Seq<char>, SymbolValue)> {
        self.entries@.map_values(|b: Binding| (b.name@, b.value))
    }
}

/// The first binding of `name`, if any.
pub open spec fn lookup_spec(tab: Seq<(Seq<char>, SymbolValue)>, name: Seq<char>) -> Option<
    SymbolValue,
>
    decreases tab.len(),
{
    if tab.len() == 0 {
        None
    } else if tab[0].0 == name {
        Some(tab[0].1)
    } else {
        lookup_spec(tab.drop_first(), name)
    }
}

pub open spec fn contains_name(tab: Seq<(Seq<char>, SymbolValue)>, name: Seq<char>) -> bool {
    lookup_spec(tab, name) is Some
}

/// Appending a binding leaves every bound name looked up as before, and
/// binds an unbound one.
pub proof fn lemma_lookup_push(
    tab: Seq<(Seq<char>, SymbolValue)>,
    entry: (Seq<char>, SymbolValue),
    name: Seq<char>,
)
    ensures
        lookup_spec(tab.push(entry), name) == if contains_name(tab, name) {
            lookup_spec(tab, name)
        } else if entry.0 == name {
            Some(entry.1)
        } else {
            None::<SymbolValue>
        },
    decreases tab.len(),
{
    if tab.len() == 0 {
        assert(tab.push(entry) =~= seq![entry]);
        assert(tab.push(entry).drop_first() =~= Seq::<(Seq<char>, SymbolValue)>::empty());
    } else {
        assert(tab.push(entry).drop_first() =~= tab.drop_first().push(entry));
        lemma_lookup_push(tab.drop_first(), entry, name);
    }
}

impl SymbolTable {
    /// An empty table.
    pub fn new() -> (r: SymbolTable)
        ensures
            r@ == Seq::<(Seq<char>, SymbolValue)>::empty(),
    {
        let r = SymbolTable { entries: Vec::new() };
        proof {
            assert(r@ =~= Seq::<(Seq<char>, SymbolValue)>::empty());
        }
        r
    }

    /// The value bound to `name`, if any.
    pub fn lookup(&self, name: &str) -> (r: Option<SymbolValue>)
        ensures
            r == lookup_spec(self@, name@),
    {
        let n = self.entries.len();
        let mut i: usize = 0;
        proof {
            assert(self@.skip(0) =~= self@);
        }
        while i < n
            invariant
                0 <= i <= n,
                n == self.entries.len(),
                lookup_spec(self@, name@) == lookup_spec(self@.skip(i as int), name@),
            decreases n - i,
        {
            proof {
                assert(self@.skip(i as int)[0] == (self.entries@[i as int].name@,
                self.entries@[i as int].value));
                assert(self@.skip(i as int).drop_first() =~= self@.skip(i + 1));
            }
            if str_eq(self.entries[i].name.as_str(), name) {
                return Some(self.entries[i].value);
            }
            i = i + 1;
        }
        proof {
            assert(self@.skip(n as int) =~= Seq::<(Seq<char>, SymbolValue)>::empty());
        }
        None
    }

    /// Binds `name`, or reports the duplicate; redefinition is an error.
    pub fn insert(&mut self, name: String, value: SymbolValue) -> (r: Result<(), AsmError>)
        ensures
            match r {
                Ok(()) => !contains_name(old(self)@, name@) && final(self)@ == old(self)@.push(
                    (name@, value),
                ),
                Err(e) => contains_name(old(self)@, name@) && e == AsmError::DuplicateSymbol
                    && final(self)@ == old(self)@,
            },
    {
        if self.lookup(name.as_str()).is_some() {
            return Err(AsmError::DuplicateSymbol);
        }
        let ghost before = self@;
        self.entries.push(Binding { name, value });
        proof {
            assert(self@ =~= before.push((self.entries@.last().name@, value)));
        }
        Ok(())
    }
}

// ---------------------------------------------------------------------------
// Building the table from the token sequence
// ---------------------------------------------------------------------------

/// Instruction tokens in a sequence: each opens one instruction line, so
/// this is how many instruction addresses the sequence spans.
pub open spec fn instr_count(toks: Seq<TokenV>) -> nat
    decreases toks.len(),
{
    if toks.len() == 0 {
        0
    } else {
        (if toks[0] is Instruction {
            1nat
        } else {
            0nat
        }) + instr_count(toks.drop_first())
    }
}

/// The symbol-building pass from token `i` on, having already collected
/// `acc` with `icount` instruction lines seen. A `.define` must be
/// followed by an identifier and a number; any redefinition is an error;
/// a label is bound to the current instruction address.
pub open spec fn build_symbols_from(
    toks: Seq<TokenV>,
    i: nat,
    acc: Seq<(Seq<char>, SymbolValue)>,
    icount: nat,
) -> Result<Seq<(Seq<char>, SymbolValue)>, AsmError>
    decreases toks.len() - i,
{
    if i >= toks.len() {
        Ok(acc)
    } else {
        match toks[i as int] {
            TokenV::Define => {
                if i + 2 >= toks.len() {
                    Err(AsmError::MalformedInstruction)
                } else {
                    match (toks[i + 1 as int], toks[i + 2 as int]) {
                        (TokenV::Identifier(name), TokenV::Number(v)) => {
                            if contains_name(acc, name) {
                                Err(AsmError::DuplicateSymbol)
                            } else {
                                build_symbols_from(
                                    toks,
                                    i + 3,
                                    acc.push((name, SymbolValue::Constant(v))),
                                    icount,
                                )
                            }
                        },
                        _ => Err(AsmError::MalformedInstruction),
                    }
                }
            },
            TokenV::Label(name) => {
                if contains_name(acc, name) {
                    Err(AsmError::DuplicateSymbol)
                } else {
                    build_symbols_from(
                        toks,
                        i + 1,
                        acc.push((name, SymbolValue::Address(icount as usize))),
                        icount,
                    )
                }
            },
            TokenV::Instruction(_) => build_symbols_from(toks, i + 1, acc, icount + 1),
            _ => build_symbols_from(toks, i + 1, acc, icount),
        }
    }
}

/// The symbol table of a token sequence.
pub open spec fn build_symbols_spec(toks: Seq<TokenV>) -> Result<
    Seq<(Seq<char>, SymbolValue)>,
    AsmError,
> {
    build_symbols_from(toks, 0, Seq::empty(), 0)
}

/// Builds the symbol table of a token sequence.
pub fn build_symbols(tokens: &Vec<Token>) -> (r: Result<SymbolTable, AsmError>)
    ensures
        match r {
            Ok(tab) => build_symbols_spec(tokens_view(tokens@)) == Ok::<
                Seq<(Seq<char>, SymbolValue)>,
                AsmError,
            >(tab@),
            Err(e) => build_symbols_spec(tokens_view(tokens@)) == Err::<
                Seq<(Seq<char>, SymbolValue)>,
                AsmError,
            >(e),
        },
{
    let ghost toks = tokens_view(tokens@);
    let n = tokens.len();
    let mut table = SymbolTable::new();
    let mut count: usize = 0;
    let mut i: usize = 0;
    while i < n
        invariant
            0 <= i <= n,
            n == tokens@.len(),
            toks == tokens_view(tokens@),
            count <= i,
            build_symbols_spec(toks) == build_symbols_from(toks, i as nat, table@, count as nat),
        decreases n - i,
    {
        proof {
            assert(toks[i as int] == tokens@[i as int]@);
        }
        match &tokens[i] {
            Token::Define => {
                if n - i <= 2 {
                    return Err(AsmError::MalformedInstruction);
                }
                proof {
                    assert(toks[i + 1 as int] == tokens@[i + 1 as int]@);
                    assert(toks[i + 2 as int] == tokens@[i + 2 as int]@);
                }
                let name = match &tokens[i + 1] {
                    Token::Identifier(name) => name.clone(),
                    _ => {
                        return Err(AsmError::MalformedInstruction);
                    },
                };
                let value = match &tokens[i + 2] {
                    Token::Number(v) => *v,
                    _ => {
                        return Err(AsmError::MalformedInstruction);
                    },
                };
                match table.insert(name, SymbolValue::Constant(value)) {
                    Ok(()) => {},
                    Err(e) => {
                        return Err(e);
                    },
                }
                i = i + 3;
            },
            Token::Label(name) => {
                match table.insert(name.clone(), SymbolValue::Address(count)) {
                    Ok(()) => {},
                    Err(e) => {
                        return Err(e);
                    },
                }
                i = i + 1;
            },
            Token::Instruction(_) => {
                count = count + 1;
                i = i + 1;
            },
            _ => {
                i = i + 1;
            },
        }
    }
    Ok(table)
}

// ---------------------------------------------------------------------------
// Where a label's address comes from
// ---------------------------------------------------------------------------

/// Counting instructions from `a` splits off the token at `a`.
proof fn lemma_instr_count_step(toks: Seq<TokenV>, a: int, b: int)
    requires
        0 <= a < b <= toks.len(),
    ensures
        instr_count(toks.subrange(a, b)) == (if toks[a] is Instruction {
            1nat
        } else {
            0nat
        }) + instr_count(toks.subrange(a + 1, b)),
{
    assert(toks.subrange(a, b)[0] == toks[a]);
    assert(toks.subrange(a, b).drop_first() =~= toks.subrange(a + 1, b));
}

/// The symbol pass only appends: a name already bound keeps its binding.
proof fn lemma_build_preserves(
    toks: Seq<TokenV>,
    i: nat,
    acc: Seq<(Seq<char>, SymbolValue)>,
    icount: nat,
    name: Seq<char>,
)
    requires
        build_symbols_from(toks, i, acc, icount) is Ok,
        contains_name(acc, name),
    ensures
        lookup_spec(build_symbols_from(toks, i, acc, icount)->Ok_0, name) == lookup_spec(acc, name),
    decreases toks.len() - i,
{
    if i >= toks.len() {
    } else {
        match toks[i as int] {
            TokenV::Define => {
                match (toks[i + 1 as int], toks[i + 2 as int]) {
                    (TokenV::Identifier(n2), TokenV::Number(v)) => {
                        let entry = (n2, SymbolValue::Constant(v));
                        lemma_lookup_push(acc, entry, name);
                        lemma_build_preserves(toks, i + 3, acc.push(entry), icount, name);
                    },
                    _ => {},
                }
            },
            TokenV::Label(n2) => {
                let entry = (n2, SymbolValue::Address(icount as usize));
                lemma_lookup_push(acc, entry, name);
                lemma_build_preserves(toks, i + 1, acc.push(entry), icount, name);
            },
            TokenV::Instruction(_) => {
                lemma_build_preserves(toks, i + 1, acc, icount + 1, name);
            },
            _ => {
                lemma_build_preserves(toks, i + 1, acc, icount, name);
            },
        }
    }
}

/// From position `i` with `icount` instruction lines already seen, the
/// label at position `j` ends up bound to `icount` plus the instruction
/// lines between `i` and `j`.
proof fn lemma_label_address_aux(
    toks: Seq<TokenV>,
    i: nat,
    acc: Seq<(Seq<char>, SymbolValue)>,
    icount: nat,
    j: nat,
)
    requires
        i <= j < toks.len(),
        toks[j as int] is Label,
        build_symbols_from(toks, i, acc, icount) is Ok,
    ensures
        lookup_spec(build_symbols_from(toks, i, acc, icount)->Ok_0, toks[j as int]->Label_0)
            == Some(
            SymbolValue::Address(
                (icount + instr_count(toks.subrange(i as int, j as int))) as usize,
            ),
        ),
    decreases j - i,
{
    let name = toks[j as int]->Label_0;
    if i == j {
        let entry = (name, SymbolValue::Address(icount as usize));
        lemma_lookup_push(acc, entry, name);
        lemma_build_preserves(toks, i + 1, acc.push(entry), icount, name);
        assert(toks.subrange(i as int, j as int) =~= Seq::<TokenV>::empty());
    } else {
        lemma_instr_count_step(toks, i as int, j as int);
        match toks[i as int] {
            TokenV::Define => {
                match (toks[i + 1 as int], toks[i + 2 as int]) {
                    (TokenV::Identifier(n2), TokenV::Number(v)) => {
                        let entry = (n2, SymbolValue::Constant(v));
                        assert(j != i + 1 && j != i + 2);
                        lemma_instr_count_step(toks, i as int + 1, j as int);
                        lemma_instr_count_step(toks, i as int + 2, j as int);
                        lemma_label_address_aux(toks, i + 3, acc.push(entry), icount, j);
                    },
                    _ => {},
                }
            },
            TokenV::Label(n2) => {
                let entry = (n2, SymbolValue::Address(icount as usize));
                lemma_label_address_aux(toks, i + 1, acc.push(entry), icount, j);
            },
            TokenV::Instruction(_) => {
                lemma_label_address_aux(toks, i + 1, acc, icount + 1, j);
            },
            _ => {
                lemma_label_address_aux(toks, i + 1, acc, icount, j);
            },
        }
    }
}

/// The symbol pass adds nothing without `.define` and label tokens.
proof fn lemma_no_symbols_aux(
    toks: Seq<TokenV>,
    i: nat,
    acc: Seq<(Seq<char>, SymbolValue)>,
    icount: nat,
)
    requires
        forall|k: int|
            0 <= k < toks.len() ==> !(#[trigger] toks[k] is Define) && !(toks[k] is Label),
    ensures
        build_symbols_from(toks, i, acc, icount) == Ok::<Seq<(Seq<char>, SymbolValue)>, AsmError>(
            acc,
        ),
    decreases toks.len() - i,
{
    if i < toks.len() {
        match toks[i as int] {
            TokenV::Instruction(_) => lemma_no_symbols_aux(toks, i + 1, acc, icount + 1),
            _ => lemma_no_symbols_aux(toks, i + 1, acc, icount),
        }
    }
}

/// A token sequence without `.define` and label tokens binds no symbols:
/// its table is empty, so what its assembly emits is a function of the
/// token sequence alone.
pub proof fn lemma_no_symbols_empty_table(toks: Seq<TokenV>)
    requires
        forall|k: int|
            0 <= k < toks.len() ==> !(#[trigger] toks[k] is Define) && !(toks[k] is Label),
    ensures
        build_symbols_spec(toks) == Ok::<Seq<(Seq<char>, SymbolValue)>, AsmError>(
            Seq::<(Seq<char>, SymbolValue)>::empty(),
        ),
{
    lemma_no_symbols_aux(toks, 0, Seq::empty(), 0);
}

/// A label's address depends on its position alone: it is the number of
/// instruction lines before its marker, whether the label is used before
/// or after its definition. Resolving a label defined after its first use
/// therefore yields the same target address as defining it first.
pub proof fn lemma_label_address(toks: Seq<TokenV>, j: int)
    requires
        build_symbols_spec(toks) is Ok,
        0 <= j < toks.len(),
        toks[j] is Label,
    ensures
        lookup_spec(build_symbols_spec(toks)->Ok_0, toks[j]->Label_0) == Some(
            SymbolValue::Address(instr_count(toks.subrange(0, j)) as usize),
        ),
{
    lemma_label_address_aux(toks, 0, Seq::empty(), 0, j as nat);
}

} // verus!
