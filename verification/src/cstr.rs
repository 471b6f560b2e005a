//! Nul-terminated strings as the Windows API takes and hands them out.
use vstd::prelude::*;

verus! {

/// `i` is the position of the first `zero` in `s`.
pub open spec fn first_terminator<T>(s: Seq<T>, zero: T, i: int) -> bool {
    &&& 0 <= i < s.len()
    &&& s[i] == zero
    &&& forall|j: int| 0 <= j < i ==> s[j] != zero
}

/// The part of `s` before its first `zero`, when there is one.
pub open spec fn terminated_prefix<T>(s: Seq<T>, zero: T) -> Option<Seq<T>> {
    if exists|i: int| first_terminator(s, zero, i) {
        Some(s.take(choose|i: int| first_terminator(s, zero, i)))
    } else {
        None
    }
}

/// The first terminator is unique.
pub proof fn lemma_first_terminator_unique<T>(s: Seq<T>, zero: T, i: int, k: int)
    requires
        first_terminator(s, zero, i),
        first_terminator(s, zero, k),
    ensures
        i == k,
{
    if i < k {
        assert(s[i] != zero);
    } else if k < i {
        assert(s[k] != zero);
    }
}

/// The bytes of `s` before its first nul byte, or `None` when it has none.
pub fn bytes_before_nul(s: &[u8]) -> (res: Option<Vec<u8>>)
    ensures
        match res {
            Some(p) => terminated_prefix(s@, 0u8) == Some(p@),
            None => terminated_prefix(s@, 0u8) is None,
        },
{
    let mut out: Vec<u8> = Vec::new();
    let mut i: usize = 0;
    while i < s.len()
        invariant
            i <= s@.len(),
            out@ == s@.take(i as int),
            forall|j: int| 0 <= j < i ==> s@[j] != 0u8,
        decreases s@.len() - i,
    {
        if s[i] == 0 {
            proof {
                assert(first_terminator(s@, 0u8, i as int));
                let k = choose|k: int| first_terminator(s@, 0u8, k);
                lemma_first_terminator_unique(s@, 0u8, i as int, k);
            }
            return Some(out);
        }
        out.push(s[i]);
        proof {
            assert(out@ =~= s@.take(i as int + 1));
        }
        i = i + 1;
    }
    proof {
        assert forall|k: int| !first_terminator(s@, 0u8, k) by {
            if 0 <= k < s@.len() {
                assert(s@[k] != 0u8);
            }
        }
    }
    None
}

/// The same as `bytes_before_nul`, over UTF-16 code units.
pub fn units_before_nul(s: &[u16]) -> (res: Option<Vec<u16>>)
    ensures
        match res {
            Some(p) => terminated_prefix(s@, 0u16) == Some(p@),
            None => terminated_prefix(s@, 0u16) is None,
        },
{
    let mut out: Vec<u16> = Vec::new();
    let mut i: usize = 0;
    while i < s.len()
        invariant
            i <= s@.len(),
            out@ == s@.take(i as int),
            forall|j: int| 0 <= j < i ==> s@[j] != 0u16,
        decreases s@.len() - i,
    {
        if s[i] == 0 {
            proof {
                assert(first_terminator(s@, 0u16, i as int));
                let k = choose|k: int| first_terminator(s@, 0u16, k);
                lemma_first_terminator_unique(s@, 0u16, i as int, k);
            }
            return Some(out);
        }
        out.push(s[i]);
        proof {
            assert(out@ =~= s@.take(i as int + 1));
        }
        i = i + 1;
    }
    proof {
        assert forall|k: int| !first_terminator(s@, 0u16, k) by {
            if 0 <= k < s@.len() {
                assert(s@[k] != 0u16);
            }
        }
    }
    None
}

/// What `CString::new(bytes).as_bytes_with_nul()` gives: `None` when `bytes`
/// holds a nul byte, else `bytes` followed by one nul.
pub open spec fn c_string_spec(bytes: Seq<u8>) -> Option<Seq<u8>> {
    if bytes.contains(0u8) {
        None
    } else {
        Some(bytes.push(0u8))
    }
}

/// Builds the nul-terminated form of `bytes`; `None` when `bytes` holds a nul.
pub fn c_string(bytes: &[u8]) -> (res: Option<Vec<u8>>)
    ensures
        match res {
            Some(c) => c_string_spec(bytes@) == Some(c@),
            None => c_string_spec(bytes@) is None,
        },
{
    let mut out: Vec<u8> = Vec::new();
    let mut i: usize = 0;
    while i < bytes.len()
        invariant
            i <= bytes@.len(),
            out@ == bytes@.take(i as int),
            forall|j: int| 0 <= j < i ==> bytes@[j] != 0u8,
        decreases bytes@.len() - i,
    {
        if bytes[i] == 0 {
            proof {
                assert(bytes@.contains(0u8));
            }
            return None;
        }
        out.push(bytes[i]);
        proof {
            assert(out@ =~= bytes@.take(i as int + 1));
        }
        i = i + 1;
    }
    proof {
        assert(out@ =~= bytes@);
        assert(!bytes@.contains(0u8));
    }
    out.push(0u8);
    Some(out)
}

/// A nul-terminated string built by `c_string` reads back, up to its
/// terminator, as the bytes it was built from.
pub proof fn lemma_c_string_round_trip(bytes: Seq<u8>)
    requires
        !bytes.contains(0u8),
    ensures
        terminated_prefix(c_string_spec(bytes).unwrap(), 0u8) == Some(bytes),
{
    let c = bytes.push(0u8);
    let n = bytes.len() as int;
    assert forall|j: int| 0 <= j < n implies c[j] != 0u8 by {
        assert(c[j] == bytes[j]);
        if bytes[j] == 0u8 {
            assert(bytes.contains(0u8));
        }
    }
    assert(first_terminator(c, 0u8, n));
    let k = choose|k: int| first_terminator(c, 0u8, k);
    lemma_first_terminator_unique(c, 0u8, n, k);
    assert(c.take(n) =~= bytes);
}

} // verus!
