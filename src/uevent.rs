//! Lookup of a variable in a kernel uevent: `KEY=VALUE` fields separated by
//! NUL bytes.

use vstd::prelude::*;

verus! {

/// The end of the field that starts at `i`: the first NUL from `i` on, or the end.
pub open spec fn field_end(s: Seq<u8>, i: int) -> int
    decreases s.len() - i,
{
    if i >= s.len() || s[i] == 0 {
        i
    } else {
        field_end(s, i + 1)
    }
}

/// The value of the first field from `i` on that starts with `key` followed
/// by `=`: the rest of that field.
pub open spec fn lookup_from(s: Seq<u8>, key: Seq<u8>, i: int) -> Option<Seq<u8>>
    decreases s.len() - i,
{
    if i < 0 || i > s.len() {
        None
    } else {
        let e = field_end(s, i);
        let f = s.subrange(i, e);
        if f.len() > key.len() && f.subrange(0, key.len() as int) == key && f[key.len() as int]
            == 61 {
            Some(f.subrange(key.len() as int + 1, f.len() as int))
        } else if e < s.len() && e >= i {
            lookup_from(s, key, e + 1)
        } else {
            None
        }
    }
}

proof fn lemma_field_end(s: Seq<u8>, i: int, e: int)
    requires
        0 <= i <= e <= s.len(),
        forall|j: int| i <= j < e ==> s[j] != 0,
        e == s.len() || s[e] == 0,
    ensures
        field_end(s, i) == e,
    decreases e - i,
{
    if i < e {
        lemma_field_end(s, i + 1, e);
    }
}

/// The value of `key` in `uevent`.
pub fn parse_env(uevent: &[u8], key: &[u8]) -> (r: Option<Vec<u8>>)
    ensures
        match r {
            Some(v) => lookup_from(uevent@, key@, 0) == Some(v@),
            None => lookup_from(uevent@, key@, 0) is None,
        },
{
    let ghost s = uevent@;
    let n = uevent.len();
    let klen = key.len();
    let mut i: usize = 0;
    loop
        invariant
            s == uevent@,
            n == s.len(),
            klen == key@.len(),
            i <= n,
            lookup_from(s, key@, 0) == lookup_from(s, key@, i as int),
        decreases n - i,
    {
        let mut e: usize = i;
        while e < n && uevent[e] != 0
            invariant
                s == uevent@,
                n == s.len(),
                i <= e <= n,
                forall|j: int| i <= j < e ==> s[j] != 0,
            decreases n - e,
        {
            e = e + 1;
        }
        proof {
            lemma_field_end(s, i as int, e as int);
        }
        let ghost f = s.subrange(i as int, e as int);
        if e - i > klen {
            let mut k: usize = 0;
            let mut same = true;
            while k < klen
                invariant
                    s == uevent@,
                    n == s.len(),
                    klen == key@.len(),
                    i + klen < e <= n,
                    k <= klen,
                    same == forall|m: int| 0 <= m < k ==> s[i + m] == key@[m],
                decreases klen - k,
            {
                if uevent[i + k] != key[k] {
                    same = false;
                }
                k = k + 1;
            }
            proof {
                if same {
                    assert(f.subrange(0, klen as int) =~= key@);
                } else {
                    if f.subrange(0, klen as int) == key@ {
                        assert forall|m: int| 0 <= m < klen implies s[i + m] == key@[m] by {
                            assert(f.subrange(0, klen as int)[m] == key@[m]);
                        }
                    }
                }
            }
            if same && uevent[i + klen] == 61 {
                let mut out: Vec<u8> = Vec::new();
                let mut j: usize = i + klen + 1;
                while j < e
                    invariant
                        s == uevent@,
                        n == s.len(),
                        i + klen + 1 <= j <= e <= n,
                        out@ == s.subrange(i + klen + 1, j as int),
                    decreases e - j,
                {
                    out.push(uevent[j]);
                    j = j + 1;
                    assert(out@ =~= s.subrange(i + klen + 1, j as int));
                }
                assert(f.subrange(klen + 1, f.len() as int) =~= out@);
                return Some(out);
            }
        }
        if e < n {
            i = e + 1;
        } else {
            return None;
        }
    }
}

} // verus!
