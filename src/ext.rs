use vstd::prelude::*;

verus! {

/// ASCII lower-casing of one byte; other bytes are kept.
pub open spec fn ascii_lower(b: u8) -> u8 {
    if 65 <= b <= 90 { (b + 32) as u8 } else { b }
}

pub open spec fn ascii_lower_seq(s: Seq<u8>) -> Seq<u8> {
    s.map_values(|b: u8| ascii_lower(b))
}

/// Index of the last `.` in `name`, or -1 when there is none.
pub open spec fn last_dot(name: Seq<u8>) -> int
    decreases name.len(),
{
    if name.len() == 0 {
        -1
    } else if name.last() == 46u8 {
        name.len() - 1
    } else {
        last_dot(name.drop_last())
    }
}

/// The extension of a file name: what follows its last `.`, where that dot is
/// not the name's first byte.
pub open spec fn extension_of(name: Seq<u8>) -> Option<Seq<u8>> {
    let d = last_dot(name);
    if d <= 0 {
        None
    } else {
        Some(name.subrange(d + 1, name.len() as int))
    }
}

/// The chart formats a scan looks for, in lower case.
pub open spec fn target_extensions() -> Seq<Seq<u8>> {
    seq![seq![98u8, 109, 115], seq![98u8, 109, 101], seq![98u8, 109, 108], seq![112u8, 109, 115],
        seq![98u8, 109, 115, 111, 110]]
}

/// `ext` names a target format, ignoring ASCII case.
pub open spec fn is_target_extension(ext: Seq<u8>) -> bool {
    target_extensions().contains(ascii_lower_seq(ext))
}

/// A file of this name is one a scan reports.
pub open spec fn is_target_name(name: Seq<u8>) -> bool {
    match extension_of(name) {
        Some(e) => is_target_extension(e),
        None => false,
    }
}

proof fn lemma_last_dot_bounds(name: Seq<u8>)
    ensures
        -1 <= last_dot(name) < name.len(),
        last_dot(name) >= 0 ==> name[last_dot(name)] == 46u8,
        forall|j: int| last_dot(name) < j < name.len() ==> name[j] != 46u8,
    decreases name.len(),
{
    if name.len() > 0 && name.last() != 46u8 {
        let rest = name.drop_last();
        lemma_last_dot_bounds(rest);
        assert forall|j: int| last_dot(name) < j < name.len() implies name[j] != 46u8 by {
            if j < name.len() - 1 {
                assert(rest[j] == name[j]);
            }
        }
    }
}

/// Position of the last `.` in `name`, if any.
fn find_last_dot(name: &[u8]) -> (r: Option<usize>)
    ensures
        match r {
            Some(i) => i as int == last_dot(name@),
            None => last_dot(name@) == -1,
        },
{
    let mut i: usize = name.len();
    assert(name@.subrange(0, i as int) =~= name@);
    while i > 0
        invariant
            i <= name@.len(),
            last_dot(name@) == last_dot(name@.subrange(0, i as int)),
        decreases i,
    {
        let ghost pre = name@.subrange(0, i as int);
        assert(pre.drop_last() =~= name@.subrange(0, i - 1));
        if name[i - 1] == 46u8 {
            return Some(i - 1);
        }
        i = i - 1;
    }
    None
}

/// ASCII lower-casing of one byte.
pub fn lower_byte(b: u8) -> (r: u8)
    ensures
        r == ascii_lower(b),
{
    if 65 <= b && b <= 90 { b + 32 } else { b }
}

/// Whether `name[start..]`, lower-cased, equals `target`.
fn tail_matches_lower(name: &[u8], start: usize, target: &[u8]) -> (r: bool)
    requires
        start <= name@.len(),
    ensures
        r == (ascii_lower_seq(name@.subrange(start as int, name@.len() as int)) == target@),
{
    let ghost tail = name@.subrange(start as int, name@.len() as int);
    if name.len() - start != target.len() {
        assert(ascii_lower_seq(tail).len() != target@.len());
        return false;
    }
    let mut i: usize = 0;
    while i < target.len()
        invariant
            start <= name@.len(),
            name@.len() - start == target@.len(),
            tail == name@.subrange(start as int, name@.len() as int),
            i <= target@.len(),
            name@.len() <= usize::MAX,
            forall|j: int| 0 <= j < i ==> ascii_lower(tail[j]) == target@[j],
        decreases target@.len() - i,
    {
        let c = lower_byte(name[start + i]);
        if c != target[i] {
            assert(ascii_lower_seq(tail)[i as int] != target@[i as int]);
            return false;
        }
        i = i + 1;
    }
    assert(ascii_lower_seq(tail) =~= target@);
    true
}

/// Whether a file of this name is one a scan reports: its extension is one of
/// `bms`, `bme`, `bml`, `pms`, `bmson`, in any ASCII case.
pub fn is_target_file_name(name: &[u8]) -> (r: bool)
    ensures
        r == is_target_name(name@),
{
    proof {
        lemma_last_dot_bounds(name@);
    }
    let d = match find_last_dot(name) {
        Some(d) => d,
        None => return false,
    };
    if d == 0 {
        return false;
    }
    let n = name.len();
    assert(d < n);
    let start = d + 1;
    let ghost e = ascii_lower_seq(name@.subrange(start as int, name@.len() as int));
    let ghost ts = target_extensions();
    let t_bms: Vec<u8> = vec![98u8, 109, 115];
    let t_bme: Vec<u8> = vec![98u8, 109, 101];
    let t_bml: Vec<u8> = vec![98u8, 109, 108];
    let t_pms: Vec<u8> = vec![112u8, 109, 115];
    let t_bmson: Vec<u8> = vec![98u8, 109, 115, 111, 110];
    let a = tail_matches_lower(name, start, t_bms.as_slice());
    let b = tail_matches_lower(name, start, t_bme.as_slice());
    let c = tail_matches_lower(name, start, t_bml.as_slice());
    let p = tail_matches_lower(name, start, t_pms.as_slice());
    let s = tail_matches_lower(name, start, t_bmson.as_slice());
    proof {
        assert(ts[0] =~= t_bms@);
        assert(ts[1] =~= t_bme@);
        assert(ts[2] =~= t_bml@);
        assert(ts[3] =~= t_pms@);
        assert(ts[4] =~= t_bmson@);
        if ts.contains(e) {
            let k = choose|k: int| 0 <= k < ts.len() && ts[k] == e;
            assert(k == 0 || k == 1 || k == 2 || k == 3 || k == 4);
        }
        if a { assert(ts[0] == e); }
        if b { assert(ts[1] == e); }
        if c { assert(ts[2] == e); }
        if p { assert(ts[3] == e); }
        if s { assert(ts[4] == e); }
    }
    a || b || c || p || s
}

} // verus!

verus! {

proof fn lemma_lower_dot(b: u8)
    ensures
        (ascii_lower(b) == 46u8) == (b == 46u8),
{
}

proof fn lemma_last_dot_same_case(a: Seq<u8>, b: Seq<u8>)
    requires
        ascii_lower_seq(a) == ascii_lower_seq(b),
    ensures
        last_dot(a) == last_dot(b),
    decreases a.len(),
{
    assert(a.len() == ascii_lower_seq(a).len());
    assert(b.len() == ascii_lower_seq(b).len());
    assert(a.len() == b.len());
    if a.len() > 0 {
        assert(ascii_lower_seq(a)[a.len() - 1] == ascii_lower_seq(b)[a.len() - 1]);
        assert(ascii_lower_seq(a)[a.len() - 1] == ascii_lower(a[a.len() - 1]));
        assert(ascii_lower_seq(b)[b.len() - 1] == ascii_lower(b[b.len() - 1]));
        assert(ascii_lower(a.last()) == ascii_lower(b.last()));
        lemma_lower_dot(a.last());
        lemma_lower_dot(b.last());
        assert(ascii_lower_seq(a.drop_last()) =~= ascii_lower_seq(a).drop_last());
        assert(ascii_lower_seq(b.drop_last()) =~= ascii_lower_seq(b).drop_last());
        lemma_last_dot_same_case(a.drop_last(), b.drop_last());
    }
}

/// Two file names that differ only in ASCII case are both reported or both
/// left out.
pub proof fn lemma_target_name_ignores_case(a: Seq<u8>, b: Seq<u8>)
    requires
        ascii_lower_seq(a) == ascii_lower_seq(b),
    ensures
        is_target_name(a) == is_target_name(b),
{
    lemma_last_dot_same_case(a, b);
    let d = last_dot(a);
    lemma_last_dot_bounds(a);
    assert(a.len() == ascii_lower_seq(a).len());
    assert(b.len() == ascii_lower_seq(b).len());
    assert(a.len() == b.len());
    if d > 0 {
        let ea = a.subrange(d + 1, a.len() as int);
        let eb = b.subrange(d + 1, b.len() as int);
        assert(a.len() == ascii_lower_seq(a).len());
        assert(b.len() == ascii_lower_seq(b).len());
        assert forall|k: int| 0 <= k < ea.len() implies ascii_lower_seq(ea)[k] == ascii_lower_seq(eb)[k] by {
            assert(ascii_lower_seq(a)[d + 1 + k] == ascii_lower_seq(b)[d + 1 + k]);
            assert(ascii_lower_seq(a)[d + 1 + k] == ascii_lower(a[d + 1 + k]));
            assert(ascii_lower_seq(b)[d + 1 + k] == ascii_lower(b[d + 1 + k]));
            assert(ea[k] == a[d + 1 + k]);
            assert(eb[k] == b[d + 1 + k]);
            assert(ascii_lower_seq(ea)[k] == ascii_lower(ea[k]));
            assert(ascii_lower_seq(eb)[k] == ascii_lower(eb[k]));
        }
        assert(ascii_lower_seq(ea) =~= ascii_lower_seq(eb));
    }
}

} // verus!
