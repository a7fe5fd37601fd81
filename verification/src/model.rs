//! The mathematical model of an interner: the sequence of its distinct
//! strings in the order of their first interning. A symbol's count is a
//! position in that sequence.

use crate::symbol::Symbol;
use vstd::prelude::*;

verus! {

/// The contents of an interner: its strings, by position.
pub type Contents = Seq<Seq<char>>;

/// The contents after interning `text`: unchanged where `text` is already
/// there, else with `text` appended.
pub open spec fn interned(contents: Contents, text: Seq<char>) -> Contents {
    if contents.contains(text) {
        contents
    } else {
        contents.push(text)
    }
}

/// The contents after interning each of `texts` in turn.
pub open spec fn intern_all(contents: Contents, texts: Seq<Seq<char>>) -> Contents
    decreases texts.len(),
{
    if texts.len() == 0 {
        contents
    } else {
        interned(intern_all(contents, texts.drop_last()), texts.last())
    }
}

/// A position at which `text` stands in `contents`; the only one where the
/// contents hold nothing twice.
pub open spec fn slot_of(contents: Contents, text: Seq<char>) -> int {
    choose|i: int| 0 <= i < contents.len() && contents[i] == text
}

/// Reverse lookup: the position of `text`, if it is interned.
pub open spec fn lookup(contents: Contents, text: Seq<char>) -> Option<int> {
    if contents.contains(text) {
        Some(slot_of(contents, text))
    } else {
        None
    }
}

/// Resolution: the string at position `count`, if there is one.
pub open spec fn resolved(contents: Contents, count: nat) -> Option<Seq<char>> {
    if count < contents.len() {
        Some(contents[count as int])
    } else {
        None
    }
}

/// Interning never removes or moves a string: the contents only grow at
/// the end, by no more than the number of strings interned.
pub proof fn lemma_intern_all_grows(contents: Contents, texts: Seq<Seq<char>>)
    ensures
        contents.len() <= intern_all(contents, texts).len() <= contents.len() + texts.len(),
        contents.len() < intern_all(contents, texts).len() || intern_all(contents, texts)
            == contents,
        forall|i: int| 0 <= i < contents.len() ==> intern_all(contents, texts)[i] == contents[i],
    decreases texts.len(),
{
    if texts.len() > 0 {
        lemma_intern_all_grows(contents, texts.drop_last());
    }
}

/// Interning a sequence of one string is interning that string.
pub proof fn lemma_intern_all_one(contents: Contents, text: Seq<char>)
    ensures
        intern_all(contents, seq![text]) == interned(contents, text),
{
    let one = seq![text];
    assert(one.drop_last() =~= Seq::<Seq<char>>::empty());
    assert(intern_all(contents, one.drop_last()) == contents);
    assert(one.last() == text);
}

/// Interning a sequence in two parts is interning the whole.
pub proof fn lemma_intern_all_split(
    contents: Contents,
    first: Seq<Seq<char>>,
    second: Seq<Seq<char>>,
)
    ensures
        intern_all(intern_all(contents, first), second) == intern_all(contents, first + second),
    decreases second.len(),
{
    if second.len() == 0 {
        assert(first + second =~= first);
    } else {
        lemma_intern_all_split(contents, first, second.drop_last());
        assert((first + second).drop_last() =~= first + second.drop_last());
        assert((first + second).last() == second.last());
    }
}

/// Interning one string keeps the contents free of repetition, adds
/// exactly that string, and leaves it at a position that holds it.
pub proof fn lemma_interned(contents: Contents, text: Seq<char>)
    requires
        contents.no_duplicates(),
    ensures
        interned(contents, text).no_duplicates(),
        interned(contents, text).to_set() == contents.to_set().insert(text),
        interned(contents, text).contains(text),
        0 <= slot_of(interned(contents, text), text) < interned(contents, text).len(),
        interned(contents, text)[slot_of(interned(contents, text), text)] == text,
        !contents.contains(text) ==> slot_of(interned(contents, text), text) == contents.len(),
{
    let after = interned(contents, text);
    if contents.contains(text) {
        assert(after.to_set() =~= contents.to_set().insert(text));
    } else {
        assert(after[contents.len() as int] == text);
        assert forall|t: Seq<char>| after.to_set().contains(t) <==> contents.to_set().insert(
            text,
        ).contains(t) by {
            if after.contains(t) {
                let i = choose|i: int| 0 <= i < after.len() && after[i] == t;
                if i < contents.len() {
                    assert(contents[i] == t);
                }
            }
            if contents.contains(t) {
                let i = choose|i: int| 0 <= i < contents.len() && contents[i] == t;
                assert(after[i] == t);
            }
        }
        assert(after.to_set() =~= contents.to_set().insert(text));
    }
    assert(after.contains(text));
}

/// Interning a sequence of strings keeps the contents free of repetition
/// and adds exactly the strings of the sequence.
pub proof fn lemma_intern_all_contents(contents: Contents, texts: Seq<Seq<char>>)
    requires
        contents.no_duplicates(),
    ensures
        intern_all(contents, texts).no_duplicates(),
        intern_all(contents, texts).to_set() == contents.to_set().union(texts.to_set()),
    decreases texts.len(),
{
    if texts.len() == 0 {
        assert(texts.to_set() =~= Set::<Seq<char>>::empty());
        assert(contents.to_set().union(texts.to_set()) =~= contents.to_set());
    } else {
        let before = intern_all(contents, texts.drop_last());
        lemma_intern_all_contents(contents, texts.drop_last());
        lemma_interned(before, texts.last());
        assert forall|t: Seq<char>| texts.to_set().contains(t) <==> texts.drop_last().to_set().insert(
            texts.last(),
        ).contains(t) by {
            if texts.contains(t) {
                let i = choose|i: int| 0 <= i < texts.len() && texts[i] == t;
                if i < texts.len() - 1 {
                    assert(texts.drop_last()[i] == t);
                }
            }
            if texts.drop_last().contains(t) {
                let i = choose|i: int| 0 <= i < texts.drop_last().len() && texts.drop_last()[i] == t;
                assert(texts[i] == t);
            }
            assert(texts[texts.len() - 1] == texts.last());
        }
        assert(texts.to_set() =~= texts.drop_last().to_set().insert(texts.last()));
        assert(intern_all(contents, texts).to_set() =~= contents.to_set().union(texts.to_set()));
    }
}

/// Dedup is deterministic: once `text` is interned, interning it again,
/// after any further strings, changes nothing and gives the position it
/// got the first time.
pub proof fn lemma_dedup_is_deterministic(
    contents: Contents,
    text: Seq<char>,
    later: Seq<Seq<char>>,
)
    requires
        contents.no_duplicates(),
    ensures
        ({
            let first = interned(contents, text);
            let between = intern_all(first, later);
            let second = interned(between, text);
            &&& second == between
            &&& lookup(first, text) is Some
            &&& lookup(second, text) == lookup(first, text)
        }),
{
    lemma_reverse_consistency(contents, text, later);
}

/// Dedup is deterministic in symbols: the symbol that interning gives a
/// text and the symbol that interning it again gives, after any further
/// strings, are the same symbol.
pub proof fn lemma_same_text_same_symbol<S: Symbol>(
    contents: Contents,
    text: Seq<char>,
    later: Seq<Seq<char>>,
    first: S,
    second: S,
)
    requires
        contents.no_duplicates(),
        lookup(interned(contents, text), text) == Some(first.count() as int),
        lookup(interned(intern_all(interned(contents, text), later), text), text) == Some(
            second.count() as int,
        ),
    ensures
        first == second,
{
    lemma_dedup_is_deterministic(contents, text, later);
    S::count_is_injective(first, second);
}

/// Density: interning into an empty interner leaves as many strings as
/// the sequence has distinct ones, and the counts that resolve are exactly
/// those below that number.
pub proof fn lemma_density(texts: Seq<Seq<char>>)
    ensures
        intern_all(Contents::empty(), texts).no_duplicates(),
        intern_all(Contents::empty(), texts).to_set() == texts.to_set(),
        intern_all(Contents::empty(), texts).len() == texts.to_set().len(),
        forall|count: nat|
            (#[trigger] resolved(intern_all(Contents::empty(), texts), count)) is Some <==> count
                < texts.to_set().len(),
{
    let start = Contents::empty();
    lemma_intern_all_contents(start, texts);
    assert(start.to_set() =~= Set::<Seq<char>>::empty());
    assert(start.to_set().union(texts.to_set()) =~= texts.to_set());
    intern_all(start, texts).unique_seq_to_set();
}

/// Round trip: the position that interning gives a string resolves to
/// that string, then and after any further interning.
pub proof fn lemma_round_trip(contents: Contents, text: Seq<char>, later: Seq<Seq<char>>)
    requires
        contents.no_duplicates(),
    ensures
        ({
            let first = interned(contents, text);
            let slot = slot_of(first, text);
            &&& slot >= 0
            &&& resolved(first, slot as nat) == Some(text)
            &&& resolved(intern_all(first, later), slot as nat) == Some(text)
        }),
{
    lemma_interned(contents, text);
    lemma_intern_all_grows(interned(contents, text), later);
}

/// Reverse consistency: looking up an interned string gives the position
/// that interning gave it, however many strings were interned since.
pub proof fn lemma_reverse_consistency(
    contents: Contents,
    text: Seq<char>,
    later: Seq<Seq<char>>,
)
    requires
        contents.no_duplicates(),
    ensures
        ({
            let first = interned(contents, text);
            let after = intern_all(first, later);
            &&& after.contains(text)
            &&& lookup(first, text) == Some(slot_of(first, text))
            &&& lookup(after, text) == lookup(first, text)
        }),
{
    let first = interned(contents, text);
    let after = intern_all(first, later);
    lemma_interned(contents, text);
    lemma_intern_all_grows(first, later);
    lemma_intern_all_contents(first, later);
    let slot = slot_of(first, text);
    assert(after[slot] == text);
    assert(after.contains(text));
    let found = slot_of(after, text);
    assert(after[found] == text);
    assert(found == slot);
}

/// Nothing resolves in an empty interner.
pub proof fn lemma_empty_resolves_nothing(count: nat)
    ensures
        resolved(Contents::empty(), count) is None,
{
}

} // verus!
