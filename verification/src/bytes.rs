use vstd::prelude::*;

verus! {

/// First index at or after `from` that holds a NUL byte, or the buffer
/// length when no NUL follows.
pub open spec fn find_nul(s: Seq<u8>, from: int) -> int
    decreases s.len() - from,
{
    if from < 0 || from >= s.len() {
        s.len() as int
    } else if s[from] == 0 {
        from
    } else {
        find_nul(s, from + 1)
    }
}

pub proof fn lemma_find_nul(s: Seq<u8>, from: int)
    requires
        0 <= from <= s.len(),
    ensures
        from <= find_nul(s, from) <= s.len(),
        find_nul(s, from) < s.len() ==> s[find_nul(s, from)] == 0,
        forall|k: int| from <= k < find_nul(s, from) ==> s[k] != 0,
    decreases s.len() - from,
{
    if from < s.len() && s[from] != 0 {
        lemma_find_nul(s, from + 1);
    }
}

/// First index at or after `from` that holds a byte other than NUL, or the
/// buffer length when only NULs follow.
pub open spec fn skip_nuls(s: Seq<u8>, from: int) -> int
    decreases s.len() - from,
{
    if from < 0 || from >= s.len() {
        s.len() as int
    } else if s[from] != 0 {
        from
    } else {
        skip_nuls(s, from + 1)
    }
}

pub proof fn lemma_skip_nuls(s: Seq<u8>, from: int)
    requires
        0 <= from <= s.len(),
    ensures
        from <= skip_nuls(s, from) <= s.len(),
    decreases s.len() - from,
{
    if from < s.len() && s[from] == 0 {
        lemma_skip_nuls(s, from + 1);
    }
}

pub fn scan_to_nul(buf: &Vec<u8>, from: usize) -> (r: usize)
    requires
        from <= buf.len(),
    ensures
        r == find_nul(buf@, from as int),
{
    let mut i: usize = from;
    while i < buf.len() && buf[i] != 0
        invariant
            from <= i <= buf.len(),
            find_nul(buf@, from as int) == find_nul(buf@, i as int),
        decreases buf.len() - i,
    {
        i = i + 1;
    }
    i
}

pub fn scan_past_nuls(buf: &Vec<u8>, from: usize) -> (r: usize)
    requires
        from <= buf.len(),
    ensures
        r == skip_nuls(buf@, from as int),
{
    let mut i: usize = from;
    while i < buf.len() && buf[i] == 0
        invariant
            from <= i <= buf.len(),
            skip_nuls(buf@, from as int) == skip_nuls(buf@, i as int),
        decreases buf.len() - i,
    {
        i = i + 1;
    }
    i
}

/// Copy of the bytes in `[start, end)`.
pub fn sub_vec(buf: &Vec<u8>, start: usize, end: usize) -> (r: Vec<u8>)
    requires
        start <= end <= buf.len(),
    ensures
        r@ == buf@.subrange(start as int, end as int),
{
    let mut out: Vec<u8> = Vec::new();
    let mut i: usize = start;
    while i < end
        invariant
            start <= i <= end <= buf.len(),
            out@ == buf@.subrange(start as int, i as int),
        decreases end - i,
    {
        out.push(buf[i]);
        proof {
            assert(out@ =~= buf@.subrange(start as int, i + 1 as int));
        }
        i = i + 1;
    }
    out
}

/// Index of the last `/` in a path, or -1 when the path has none.
pub open spec fn last_slash(s: Seq<u8>) -> int
    decreases s.len(),
{
    if s.len() == 0 {
        -1
    } else if s[s.len() - 1] == 47 {
        s.len() - 1
    } else {
        last_slash(s.drop_last())
    }
}

pub proof fn lemma_last_slash(s: Seq<u8>)
    ensures
        -1 <= last_slash(s) < s.len(),
        last_slash(s) >= 0 ==> s[last_slash(s)] == 47,
    decreases s.len(),
{
    if s.len() > 0 && s[s.len() - 1] != 47 {
        lemma_last_slash(s.drop_last());
    }
}

pub fn rfind_slash(buf: &Vec<u8>) -> (r: Option<usize>)
    ensures
        (r matches Some(i) ==> i == last_slash(buf@)),
        r is None ==> last_slash(buf@) == -1,
{
    let mut i: usize = buf.len();
    proof {
        assert(buf@.subrange(0, buf@.len() as int) =~= buf@);
    }
    while i > 0
        invariant
            i <= buf.len(),
            last_slash(buf@) == last_slash(buf@.subrange(0, i as int)),
        decreases i,
    {
        if buf[i - 1] == 47 {
            return Some(i - 1);
        }
        proof {
            assert(buf@.subrange(0, i as int).drop_last() =~= buf@.subrange(0, i - 1 as int));
        }
        i = i - 1;
    }
    None
}

/// The file-name portion of a path: everything after the last `/`, or the
/// whole path when it has none.
pub open spec fn spec_file_name(s: Seq<u8>) -> Seq<u8> {
    s.subrange(last_slash(s) + 1, s.len() as int)
}

pub fn file_name(buf: &Vec<u8>) -> (r: Vec<u8>)
    ensures
        r@ == spec_file_name(buf@),
{
    proof {
        lemma_last_slash(buf@);
    }
    match rfind_slash(buf) {
        Some(i) => {
            assert(i == last_slash(buf@));
            assert(i < buf.len());
            sub_vec(buf, i + 1, buf.len())
        },
        None => sub_vec(buf, 0, buf.len()),
    }
}

/// The parent directory of a path: everything before the last `/`, with the
/// root path itself as the parent of a top-level entry, and empty when the
/// path has no `/` at all.
pub open spec fn spec_parent_dir(s: Seq<u8>) -> Seq<u8> {
    let i = last_slash(s);
    if i < 0 {
        Seq::empty()
    } else if i == 0 {
        s.subrange(0, 1)
    } else {
        s.subrange(0, i)
    }
}

pub fn parent_dir(buf: &Vec<u8>) -> (r: Vec<u8>)
    ensures
        r@ == spec_parent_dir(buf@),
{
    proof {
        lemma_last_slash(buf@);
    }
    match rfind_slash(buf) {
        Some(i) => {
            if i == 0 {
                sub_vec(buf, 0, 1)
            } else {
                sub_vec(buf, 0, i)
            }
        },
        None => {
            let r: Vec<u8> = Vec::new();
            proof {
                assert(r@ =~= spec_parent_dir(buf@));
            }
            r
        },
    }
}

pub open spec fn is_prefix(p: Seq<u8>, s: Seq<u8>) -> bool {
    p.len() <= s.len() && s.subrange(0, p.len() as int) =~= p
}

pub fn starts_with(s: &Vec<u8>, prefix: &Vec<u8>) -> (r: bool)
    ensures
        r == is_prefix(prefix@, s@),
{
    if prefix.len() > s.len() {
        return false;
    }
    let mut i: usize = 0;
    while i < prefix.len()
        invariant
            0 <= i <= prefix.len() <= s.len(),
            forall|k: int| 0 <= k < i ==> s@[k] == prefix@[k],
        decreases prefix.len() - i,
    {
        if s[i] != prefix[i] {
            assert(!is_prefix(prefix@, s@)) by {
                assert(s@.subrange(0, prefix@.len() as int)[i as int] != prefix@[i as int]);
            }
            return false;
        }
        i = i + 1;
    }
    proof {
        assert(s@.subrange(0, prefix@.len() as int) =~= prefix@);
    }
    true
}

pub fn bytes_eq(a: &Vec<u8>, b: &Vec<u8>) -> (r: bool)
    ensures
        r == (a@ == b@),
{
    if a.len() != b.len() {
        return false;
    }
    let mut i: usize = 0;
    while i < a.len()
        invariant
            i <= a.len(),
            a.len() == b.len(),
            forall|k: int| 0 <= k < i ==> a@[k] == b@[k],
        decreases a.len() - i,
    {
        if a[i] != b[i] {
            return false;
        }
        i = i + 1;
    }
    proof {
        assert(a@ =~= b@);
    }
    true
}

/// A device name as the kernel reports it: the bytes before the first NUL,
/// or the whole buffer when it holds none.
pub fn make_name(v: &Vec<u8>) -> (r: Vec<u8>)
    ensures
        r@ == v@.subrange(0, find_nul(v@, 0)),
{
    proof {
        lemma_find_nul(v@, 0);
    }
    let end = scan_to_nul(v, 0);
    sub_vec(v, 0, end)
}

} // verus!
