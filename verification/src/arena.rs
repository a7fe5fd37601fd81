//! The arena: the interner's owned strings, in the order of their first
//! interning. A string's position never changes once it is stored.

use crate::model::Contents;
use vstd::prelude::*;

verus! {

/// `Vec::capacity`: how many elements the vector can hold without
/// reallocating. The number is the allocator's; nothing is claimed of it.
#[verifier::external_body]
fn buffers_capacity(buffers: &Vec<String>) -> (capacity: usize) {
    buffers.capacity()
}

/// `Vec::shrink_to_fit`: gives back unused capacity and leaves the elements
/// as they are.
#[verifier::external_body]
fn shrink_buffers(buffers: &mut Vec<String>)
    ensures
        final(buffers)@ == old(buffers)@,
{
    buffers.shrink_to_fit()
}

/// An append-only sequence of owned strings, addressed by position.
#[derive(Debug)]
pub struct Arena {
    buffers: Vec<String>,
}

impl View for Arena {
    type V = Contents;

    closed spec fn view(&self) -> Contents {
        self.buffers@.map_values(|s: String| s@)
    }
}

impl Arena {
    /// Creates an empty arena.
    pub fn new() -> (arena: Self)
        ensures
            arena@ == Contents::empty(),
    {
        let arena = Arena { buffers: Vec::new() };
        assert(arena@ =~= Contents::empty());
        arena
    }

    /// Creates an empty arena with room for `cap` strings.
    pub fn with_capacity(cap: usize) -> (arena: Self)
        ensures
            arena@ == Contents::empty(),
    {
        let arena = Arena { buffers: Vec::with_capacity(cap) };
        assert(arena@ =~= Contents::empty());
        arena
    }

    /// Returns the number of strings stored.
    pub fn len(&self) -> (n: usize)
        ensures
            n == self@.len(),
    {
        self.buffers.len()
    }

    /// Stores a copy of `content` behind the strings already there and
    /// returns its position.
    pub fn push(&mut self, content: &str) -> (position: usize)
        ensures
            final(self)@ == old(self)@.push(content@),
            position == old(self)@.len(),
    {
        let position = self.buffers.len();
        self.buffers.push(content.to_owned());
        assert(self@ =~= old(self)@.push(content@));
        position
    }

    /// Returns the string at `position`, or `None` where there is none.
    pub fn get(&self, position: usize) -> (content: Option<&str>)
        ensures
            match content {
                Some(text) => position < self@.len() && text@ == self@[position as int],
                None => position >= self@.len(),
            },
    {
        if position < self.buffers.len() {
            Some(self.buffers[position].as_str())
        } else {
            None
        }
    }

    /// Returns the string at `position`, which the caller knows to be in
    /// range.
    pub fn get_unchecked(&self, position: usize) -> (content: &str)
        requires
            position < self@.len(),
        ensures
            content@ == self@[position as int],
    {
        self.buffers[position].as_str()
    }

    /// Returns how many strings the arena can hold without reallocating.
    pub fn capacity(&self) -> (capacity: usize) {
        buffers_capacity(&self.buffers)
    }

    /// Reserves room for at least `additional` more strings.
    pub fn reserve(&mut self, additional: usize)
        ensures
            final(self)@ == old(self)@,
    {
        self.buffers.reserve(additional);
    }

    /// Gives back unused capacity.
    pub fn shrink_to_fit(&mut self)
        ensures
            final(self)@ == old(self)@,
    {
        shrink_buffers(&mut self.buffers);
    }

    /// Drops every string.
    pub fn clear(&mut self)
        ensures
            final(self)@ == Contents::empty(),
    {
        self.buffers.clear();
        assert(self@ =~= Contents::empty());
    }

    /// Tells whether two arenas hold the same strings in the same order.
    pub fn same_contents(&self, other: &Self) -> (same: bool)
        ensures
            same == (self@ == other@),
    {
        if self.buffers.len() != other.buffers.len() {
            assert(self@.len() != other@.len());
            return false;
        }
        let mut at: usize = 0;
        while at < self.buffers.len()
            invariant
                self.buffers@.len() == other.buffers@.len(),
                0 <= at <= self.buffers@.len(),
                forall|i: int| 0 <= i < at ==> self@[i] == other@[i],
            decreases self.buffers@.len() - at,
        {
            if self.buffers[at] != other.buffers[at] {
                assert(self@[at as int] != other@[at as int]);
                return false;
            }
            at += 1;
        }
        assert(self@ =~= other@);
        true
    }

    /// Returns the strings in the order of their positions.
    pub fn values(&self) -> (texts: Vec<&str>)
        ensures
            texts@.len() == self@.len(),
            forall|i: int| 0 <= i < texts@.len() ==> (#[trigger] texts@[i])@ == self@[i],
    {
        let mut texts: Vec<&str> = Vec::with_capacity(self.buffers.len());
        let mut at: usize = 0;
        while at < self.buffers.len()
            invariant
                0 <= at <= self.buffers@.len(),
                texts@.len() == at,
                forall|i: int| 0 <= i < at ==> (#[trigger] texts@[i])@ == self@[i],
            decreases self.buffers@.len() - at,
        {
            texts.push(self.buffers[at].as_str());
            at += 1;
        }
        texts
    }

    /// Hands the strings over, in the order of their positions.
    pub fn into_values(self) -> (texts: Vec<String>)
        ensures
            texts@.len() == self@.len(),
            forall|i: int| 0 <= i < texts@.len() ==> (#[trigger] texts@[i])@ == self@[i],
    {
        self.buffers
    }
}

impl Clone for Arena {
    /// Copies every string into an arena of its own.
    fn clone(&self) -> (copy: Self)
        ensures
            copy@ == self@,
    {
        let mut buffers: Vec<String> = Vec::with_capacity(self.buffers.len());
        let mut at: usize = 0;
        while at < self.buffers.len()
            invariant
                0 <= at <= self.buffers@.len(),
                buffers@ == self.buffers@.take(at as int),
            decreases self.buffers@.len() - at,
        {
            buffers.push(self.buffers[at].clone());
            assert(buffers@ =~= self.buffers@.take(at + 1));
            at += 1;
        }
        assert(buffers@ =~= self.buffers@);
        Arena { buffers }
    }
}

} // verus!
