use vstd::prelude::*;

verus! {

/// Whether `prefix` is a literal prefix of `s`.
pub open spec fn is_prefix_of(prefix: Seq<char>, s: Seq<char>) -> bool {
    prefix.len() <= s.len() && s.subrange(0, prefix.len() as int) == prefix
}

/// Whether one of `prefixes` is a literal prefix of `s`.
pub open spec fn has_prefix_in(prefixes: Seq<String>, s: Seq<char>) -> bool {
    exists|i: int| 0 <= i < prefixes.len() && #[trigger] is_prefix_of(prefixes[i]@, s)
}

/// Relies on `str::starts_with` with a `&str` pattern: it returns true exactly
/// when `prefix` is a prefix of `s`.
#[verifier::external_body]
fn str_starts_with(s: &str, prefix: &str) -> (r: bool)
    ensures
        r == is_prefix_of(prefix@, s@),
{
    s.starts_with(prefix)
}

/// Which origins an event may come from to be kept.
#[derive(Debug)]
pub enum AllowedTargets {
    /// Every origin is accepted.
    All,
    /// Only origins that start with one of these prefixes are accepted.
    Selected(Vec<String>),
}

impl AllowedTargets {
    /// Whether an event whose origin is `target` passes this filter.
    pub open spec fn admits(self, target: Seq<char>) -> bool {
        match self {
            AllowedTargets::All => true,
            AllowedTargets::Selected(selection) => has_prefix_in(selection@, target),
        }
    }

    /// Whether two filters hold the same prefixes, in the same order, or are
    /// both `All`.
    pub open spec fn same_as(self, other: AllowedTargets) -> bool {
        match (self, other) {
            (AllowedTargets::All, AllowedTargets::All) => true,
            (AllowedTargets::Selected(a), AllowedTargets::Selected(b)) => a@ == b@,
            _ => false,
        }
    }

    pub fn allows(&self, target: &str) -> (r: bool)
        ensures
            r == self.admits(target@),
    {
        match self {
            AllowedTargets::All => true,
            AllowedTargets::Selected(selection) => {
                let mut i: usize = 0;
                while i < selection.len()
                    invariant
                        *self == AllowedTargets::Selected(*selection),
                        i <= selection@.len(),
                        forall|j: int| 0 <= j < i ==> !is_prefix_of(#[trigger] selection@[j]@, target@),
                    decreases selection@.len() - i,
                {
                    if str_starts_with(target, selection[i].as_str()) {
                        assert(is_prefix_of(selection@[i as int]@, target@));
                        assert(has_prefix_in(selection@, target@));
                        return true;
                    }
                    i = i + 1;
                }
                false
            },
        }
    }
}

impl Clone for AllowedTargets {
    fn clone(&self) -> (r: AllowedTargets)
        ensures
            r.same_as(*self),
    {
        match self {
            AllowedTargets::All => AllowedTargets::All,
            AllowedTargets::Selected(selection) => {
                let mut copy: Vec<String> = Vec::new();
                let mut i: usize = 0;
                while i < selection.len()
                    invariant
                        i <= selection@.len(),
                        copy@ == selection@.subrange(0, i as int),
                    decreases selection@.len() - i,
                {
                    copy.push(selection[i].clone());
                    i = i + 1;
                }
                assert(copy@ == selection@);
                let r = AllowedTargets::Selected(copy);
                assert(r.same_as(*self));
                r
            },
        }
    }
}

} // verus!
