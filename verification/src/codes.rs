//! The alarm-code registry: a session-scoped, append-only map from symbolic
//! names to stable numeric codes, plus the set of currently latched codes.

use vstd::prelude::*;

verus! {

broadcast use vstd::seq_lib::group_seq_properties;

/// The shared alarm state. Names receive monotonically increasing codes,
/// never reassigned within a session; latching a code is an idempotent set
/// insertion; consuming is a one-shot check-and-clear.
pub struct Codes {
    listing: Vec<(String, u128)>,
    active: Vec<u128>,
    current_code: u128,
}

/// The name-to-code map denoted by a listing, later entries shadowing none
/// because keys are unique.
pub open spec fn listing_map_of(s: Seq<(String, u128)>) -> Map<Seq<char>, u128>
    decreases s.len(),
{
    if s.len() == 0 {
        Map::empty()
    } else {
        listing_map_of(s.drop_last()).insert(s.last().0@, s.last().1)
    }
}

/// A key occurs somewhere in the listing.
pub open spec fn listing_has(s: Seq<(String, u128)>, name: Seq<char>) -> bool {
    exists|i: int| 0 <= i < s.len() && (#[trigger] s[i]).0@ == name
}

/// The listing's map contains exactly the listed keys, each mapped to the
/// code stored beside it.
proof fn lemma_listing_map(s: Seq<(String, u128)>)
    requires
        forall|i: int, j: int| 0 <= i < j < s.len() ==> (#[trigger] s[i]).0@ != (#[trigger] s[j]).0@,
    ensures
        forall|name: Seq<char>| #[trigger]
            listing_map_of(s).contains_key(name) <==> listing_has(s, name),
        forall|i: int|
            0 <= i < s.len() ==> listing_map_of(s).contains_key((#[trigger] s[i]).0@)
                && listing_map_of(s)[s[i].0@] == s[i].1,
    decreases s.len(),
{
    if s.len() > 0 {
        let rest = s.drop_last();
        lemma_listing_map(rest);
        assert(forall|i: int| 0 <= i < rest.len() ==> rest[i] == s[i]);
        assert forall|name: Seq<char>| #[trigger]
            listing_map_of(s).contains_key(name) implies listing_has(s, name) by {
            if name == s.last().0@ {
                assert(s[s.len() - 1].0@ == name);
            } else {
                assert(listing_map_of(rest).contains_key(name));
                assert(listing_has(rest, name));
                let i = choose|i: int| 0 <= i < rest.len() && (#[trigger] rest[i]).0@ == name;
                assert(rest[i] == s[i]);
                assert(s[i].0@ == name);
            }
        }
        assert forall|name: Seq<char>| listing_has(s, name) implies #[trigger]
            listing_map_of(s).contains_key(name) by {
            let i = choose|i: int| 0 <= i < s.len() && (#[trigger] s[i]).0@ == name;
            if i < s.len() - 1 {
                assert(rest[i].0@ == name);
            }
        }
        assert forall|i: int| 0 <= i < s.len() implies listing_map_of(s).contains_key(
            (#[trigger] s[i]).0@,
        ) && listing_map_of(s)[s[i].0@] == s[i].1 by {
            if i < s.len() - 1 {
                assert(rest[i] == s[i]);
                assert(s[i].0@ != s.last().0@);
            }
        }
    }
}

impl Codes {
    /// Internal consistency: codes in the listing are exactly its indices
    /// (so names are unique and ids monotone), the next code continues the
    /// sequence, and the latched list holds no duplicates.
    pub closed spec fn wf(self) -> bool {
        &&& forall|i: int|
            0 <= i < self.listing@.len() ==> (#[trigger] self.listing@[i]).1 == i as u128
        &&& forall|i: int, j: int|
            0 <= i < j < self.listing@.len() ==> (#[trigger] self.listing@[i]).0@ != (
            #[trigger] self.listing@[j]).0@
        &&& self.current_code == self.listing@.len() as u128
        &&& forall|i: int, j: int|
            0 <= i < j < self.active@.len() ==> self.active@[i] != self.active@[j]
    }

    /// The set of currently latched codes.
    pub closed spec fn active_set(self) -> Set<u128> {
        self.active@.to_set()
    }

    /// The registered name-to-code map.
    pub closed spec fn listing_map(self) -> Map<Seq<char>, u128> {
        listing_map_of(self.listing@)
    }

    /// The code the next fresh name would receive.
    pub closed spec fn next_code(self) -> u128 {
        self.current_code
    }

    /// A fresh registry: nothing registered, nothing latched.
    pub fn new() -> (r: Codes)
        ensures
            r.wf(),
            r.active_set() == Set::<u128>::empty(),
            r.listing_map() == Map::<Seq<char>, u128>::empty(),
            r.next_code() == 0,
    {
        let r = Codes { listing: Vec::new(), active: Vec::new(), current_code: 0 };
        proof {
            assert(r.active_set() =~= Set::<u128>::empty());
        }
        r
    }

    /// Latches a code: an idempotent union into the active set. The registry
    /// of names is untouched.
    pub fn insert(&mut self, code: u128)
        requires
            old(self).wf(),
        ensures
            final(self).wf(),
            final(self).active_set() == old(self).active_set().insert(code),
            final(self).listing_map() == old(self).listing_map(),
            final(self).next_code() == old(self).next_code(),
    {
        let already = self.contains(code);
        if !already {
            self.active.push(code);
            proof {
                assert(self.active@.drop_last() =~= old(self).active@);
                assert forall|i: int, j: int|
                    0 <= i < j < self.active@.len() implies self.active@[i] != self.active@[j] by {
                    if j < self.active@.len() - 1 {
                        assert(old(self).active@[i] != old(self).active@[j]);
                    } else {
                        assert(!old(self).active@.contains(code));
                        assert(old(self).active@[i] != code);
                    }
                }
                assert(self.active_set() =~= old(self).active_set().insert(code));
            }
        } else {
            proof {
                assert(self.active_set() =~= old(self).active_set().insert(code));
            }
        }
    }

    /// Whether a code is currently latched.
    pub fn contains(&self, code: u128) -> (r: bool)
        ensures
            r == self.active_set().contains(code),
    {
        let mut i: usize = 0;
        while i < self.active.len()
            invariant
                i <= self.active@.len(),
                forall|j: int| 0 <= j < i ==> self.active@[j] != code,
            decreases self.active@.len() - i,
        {
            if self.active[i] == code {
                return true;
            }
            i = i + 1;
        }
        proof {
            assert(!self.active@.contains(code));
        }
        false
    }

    /// Atomic check-and-clear: reports whether the code was latched and, if
    /// it was, unlatches it.
    pub fn consume(&mut self, code: u128) -> (r: bool)
        requires
            old(self).wf(),
        ensures
            final(self).wf(),
            r == old(self).active_set().contains(code),
            final(self).active_set() == old(self).active_set().remove(code),
            final(self).listing_map() == old(self).listing_map(),
            final(self).next_code() == old(self).next_code(),
    {
        let mut i: usize = 0;
        while i < self.active.len()
            invariant
                *self == *old(self),
                old(self).wf(),
                i <= self.active@.len(),
                forall|j: int| 0 <= j < i ==> self.active@[j] != code,
            decreases self.active@.len() - i,
        {
            if self.active[i] == code {
                self.active.remove(i);
                proof {
                    let pre = old(self).active@;
                    assert(pre.contains(code));
                    assert forall|e: u128|
                        self.active@.to_set().contains(e) == pre.to_set().remove(code).contains(
                        e,
                    ) by {
                        if e == code {
                            assert(forall|j: int|
                                0 <= j < pre.len() && j != i ==> pre[j] != code);
                            assert(!self.active@.contains(code));
                        } else {
                            if self.active@.contains(e) {
                                let k = choose|k: int|
                                    0 <= k < self.active@.len() && self.active@[k] == e;
                                if k < i {
                                    assert(pre[k] == e);
                                } else {
                                    assert(pre[k + 1] == e);
                                }
                            }
                            if pre.contains(e) {
                                let k = choose|k: int| 0 <= k < pre.len() && pre[k] == e;
                                if k < i {
                                    assert(self.active@[k] == e);
                                } else {
                                    assert(k != i);
                                    assert(self.active@[k - 1] == e);
                                }
                            }
                        }
                    }
                    assert(self.active_set() =~= old(self).active_set().remove(code));
                    assert forall|a: int, b: int|
                        0 <= a < b < self.active@.len() implies self.active@[a]
                        != self.active@[b] by {
                        let pa: int = if a < i { a } else { a + 1 };
                        let pb: int = if b < i { b } else { b + 1 };
                        assert(pre[pa] != pre[pb]);
                    }
                }
                return true;
            }
            i = i + 1;
        }
        proof {
            assert(!self.active@.contains(code));
            assert(self.active_set() =~= old(self).active_set().remove(code));
        }
        false
    }

    /// Returns the stable code for a name: the code it already has, or the
    /// next fresh id, recorded append-only for the rest of the session.
    pub fn get_code(&mut self, name: String) -> (code: u128)
        requires
            old(self).wf(),
        ensures
            final(self).wf(),
            final(self).active_set() == old(self).active_set(),
            old(self).listing_map().contains_key(name@) ==> code == old(self).listing_map()[name@]
                && final(self).listing_map() == old(self).listing_map() && final(self).next_code()
                == old(self).next_code(),
            !old(self).listing_map().contains_key(name@) ==> code == old(self).next_code()
                && final(self).listing_map() == old(self).listing_map().insert(name@, code)
                && final(self).next_code() == old(self).next_code() + 1,
            final(self).listing_map().contains_key(name@),
            final(self).listing_map()[name@] == code,
    {
        proof {
            lemma_listing_map(self.listing@);
        }
        let mut i: usize = 0;
        while i < self.listing.len()
            invariant
                *self == *old(self),
                old(self).wf(),
                i <= self.listing@.len(),
                forall|j: int| 0 <= j < i ==> (#[trigger] self.listing@[j]).0@ != name@,
            decreases self.listing@.len() - i,
        {
            if self.listing[i].0 == name {
                proof {
                    lemma_listing_map(self.listing@);
                    assert(self.listing@[i as int].0@ == name@);
                }
                return self.listing[i].1;
            }
            i = i + 1;
        }
        let code = self.current_code;
        proof {
            assert(!listing_has(self.listing@, name@));
            assert(self.listing@.len() < usize::MAX as int + 1);
        }
        self.listing.push((name, code));
        self.current_code = self.current_code + 1;
        proof {
            assert(self.listing@.drop_last() =~= old(self).listing@);
            assert(self.listing@.last().1 == code);
            lemma_listing_map(old(self).listing@);
        }
        code
    }

    /// Compatibility predicate between a suspicious body's code and an observer's
    /// code; this default accepts every pair. Detection applies whatever
    /// policy it is given, so replacing this predicate never changes the
    /// algorithm around it.
    pub fn codes_interact(passive: u128, active: u128) -> (r: bool)
        ensures
            r,
    {
        true
    }
}

/// Latching is idempotent: inserting a code twice leaves the same active
/// set as inserting it once, so with `Codes::insert`'s contract two calls
/// end in the same state as one.
pub proof fn lemma_insert_idempotent(s: Set<u128>, code: u128)
    ensures
        s.insert(code).insert(code) == s.insert(code),
{
    assert(s.insert(code).insert(code) =~= s.insert(code));
}

/// Consumption is one-shot: once a code is removed it is no longer held, so
/// with `Codes::consume`'s contract two consecutive calls on a latched code
/// return true and then false.
pub proof fn lemma_consume_one_shot(s: Set<u128>, code: u128)
    ensures
        !s.remove(code).contains(code),
        s.remove(code).remove(code) == s.remove(code),
{
    assert(s.remove(code).remove(code) =~= s.remove(code));
}

} // verus!
