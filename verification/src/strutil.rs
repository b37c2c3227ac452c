use vstd::prelude::*;

verus! {

/// Index of the first occurrence of `c` in `s`, if any.
pub open spec fn spec_find(s: Seq<char>, c: char) -> Option<int>
    decreases s.len(),
{
    if s.len() == 0 {
        None
    } else if s[0] == c {
        Some(0)
    } else {
        match spec_find(s.skip(1), c) {
            Some(i) => Some(i + 1),
            None => None,
        }
    }
}

/// Index of the last occurrence of `c` in `s`, if any.
pub open spec fn spec_rfind(s: Seq<char>, c: char) -> Option<int>
    decreases s.len(),
{
    if s.len() == 0 {
        None
    } else if s.last() == c {
        Some(s.len() - 1)
    } else {
        spec_rfind(s.drop_last(), c)
    }
}

pub proof fn lemma_spec_find_props(s: Seq<char>, c: char)
    ensures
        match spec_find(s, c) {
            Some(i) => 0 <= i < s.len() && s[i] == c && forall|j: int| 0 <= j < i ==> s[j] != c,
            None => forall|j: int| 0 <= j < s.len() ==> s[j] != c,
        },
    decreases s.len(),
{
    if s.len() > 0 && s[0] != c {
        lemma_spec_find_props(s.skip(1), c);
        match spec_find(s.skip(1), c) {
            Some(i) => {
                assert(s.skip(1)[i] == s[i + 1]);
                assert forall|j: int| 0 <= j < i + 1 implies s[j] != c by {
                    if j >= 1 {
                        assert(s[j] == s.skip(1)[j - 1]);
                    }
                }
            },
            None => {
                assert forall|j: int| 0 <= j < s.len() implies s[j] != c by {
                    if j >= 1 {
                        assert(s[j] == s.skip(1)[j - 1]);
                    }
                }
            },
        }
    }
}

pub proof fn lemma_spec_rfind_props(s: Seq<char>, c: char)
    ensures
        match spec_rfind(s, c) {
            Some(i) => 0 <= i < s.len() && s[i] == c && forall|j: int| i < j < s.len() ==> s[j] != c,
            None => forall|j: int| 0 <= j < s.len() ==> s[j] != c,
        },
    decreases s.len(),
{
    if s.len() > 0 && s.last() != c {
        lemma_spec_rfind_props(s.drop_last(), c);
        match spec_rfind(s.drop_last(), c) {
            Some(i) => {
                assert(s.drop_last()[i] == s[i]);
                assert forall|j: int| i < j < s.len() implies s[j] != c by {
                    if j < s.len() - 1 {
                        assert(s[j] == s.drop_last()[j]);
                    }
                }
            },
            None => {
                assert forall|j: int| 0 <= j < s.len() implies s[j] != c by {
                    if j < s.len() - 1 {
                        assert(s[j] == s.drop_last()[j]);
                    }
                }
            },
        }
    }
}

/// Character-wise string equality, stated over the views.
pub fn str_eq(a: &str, b: &str) -> (r: bool)
    ensures
        r == (a@ == b@),
{
    let alen = a.unicode_len();
    let blen = b.unicode_len();
    if alen != blen {
        assert(a@ != b@);
        return false;
    }
    let mut i: usize = 0;
    while i < alen
        invariant
            alen == a@.len(),
            alen == b@.len(),
            0 <= i <= alen,
            forall|j: int| 0 <= j < i ==> a@[j] == b@[j],
        decreases alen - i,
    {
        if a.get_char(i) != b.get_char(i) {
            return false;
        }
        i += 1;
    }
    assert(a@ =~= b@);
    true
}

/// First occurrence of `c` in `s`, as `spec_find` names it.
pub fn find_char(s: &str, c: char) -> (r: Option<usize>)
    ensures
        match r {
            Some(i) => spec_find(s@, c) == Some(i as int),
            None => spec_find(s@, c) is None,
        },
{
    let len = s.unicode_len();
    let mut i: usize = 0;
    while i < len
        invariant
            len == s@.len(),
            0 <= i <= len,
            forall|j: int| 0 <= j < i ==> s@[j] != c,
        decreases len - i,
    {
        if s.get_char(i) == c {
            proof {
                lemma_spec_find_props(s@, c);
            }
            return Some(i);
        }
        i += 1;
    }
    proof {
        lemma_spec_find_props(s@, c);
    }
    None
}

/// Last occurrence of `c` in `s`, as `spec_rfind` names it.
pub fn rfind_char(s: &str, c: char) -> (r: Option<usize>)
    ensures
        match r {
            Some(i) => spec_rfind(s@, c) == Some(i as int),
            None => spec_rfind(s@, c) is None,
        },
{
    let len = s.unicode_len();
    let mut i: usize = len;
    while i > 0
        invariant
            len == s@.len(),
            0 <= i <= len,
            forall|j: int| i <= j < len ==> s@[j] != c,
        decreases i,
    {
        i -= 1;
        if s.get_char(i) == c {
            proof {
                lemma_spec_rfind_props(s@, c);
            }
            return Some(i);
        }
    }
    proof {
        lemma_spec_rfind_props(s@, c);
    }
    None
}

} // verus!
