use vstd::prelude::*;

verus! {

/// Which neighbouring match a search returns.
#[derive(Clone, Copy, PartialEq, Eq, Debug, Structural)]
pub enum SearchDirection {
    Forward,
    Backward,
}

/// `q` occurs in `l` starting at index `c`.
pub open spec fn occurs_at(l: Seq<char>, q: Seq<char>, c: int) -> bool {
    0 <= c && c + q.len() <= l.len() && l.subrange(c, c + q.len()) == q
}

/// Whether `q` occurs in `l` at index `c`.
pub fn matches_at(l: &Vec<char>, q: &Vec<char>, c: usize) -> (r: bool)
    ensures
        r == occurs_at(l@, q@, c as int),
{
    if c > l.len() || q.len() > l.len() - c {
        return false;
    }
    let n = l.len();
    let mut j: usize = 0;
    while j < q.len()
        invariant
            n == l@.len(),
            c + q@.len() <= l@.len(),
            j <= q@.len(),
            forall|k: int| 0 <= k < j ==> l@[c + k] == q@[k],
        decreases q@.len() - j,
    {
        if l[c + j] != q[j] {
            assert(l@.subrange(c as int, c + q@.len())[j as int] != q@[j as int]);
            return false;
        }
        j = j + 1;
    }
    assert(l@.subrange(c as int, c + q@.len()) =~= q@);
    true
}

/// The first index at or after `from` where `q` occurs in `l`.
pub fn first_occurrence_from(l: &Vec<char>, q: &Vec<char>, from: usize) -> (r: Option<usize>)
    ensures
        match r {
            Some(c) => from <= c && occurs_at(l@, q@, c as int) && forall|d: int|
                from <= d < c ==> !occurs_at(l@, q@, d),
            None => forall|d: int| from <= d ==> !occurs_at(l@, q@, d),
        },
{
    let mut c = from;
    while c < l.len()
        invariant
            from <= c,
            forall|d: int| from <= d < c ==> !occurs_at(l@, q@, d),
        decreases l@.len() - c,
    {
        if matches_at(l, q, c) {
            return Some(c);
        }
        c = c + 1;
    }
    if matches_at(l, q, c) {
        return Some(c);
    }
    None
}

/// The last index before `before` where `q` occurs in `l`.
pub fn last_occurrence_before(l: &Vec<char>, q: &Vec<char>, before: usize) -> (r: Option<usize>)
    ensures
        match r {
            Some(c) => c < before && occurs_at(l@, q@, c as int) && forall|d: int|
                c < d < before ==> !occurs_at(l@, q@, d),
            None => forall|d: int| d < before ==> !occurs_at(l@, q@, d),
        },
{
    let mut c = if before <= l.len() {
        before
    } else {
        l.len() + 1
    };
    while c > 0
        invariant
            c <= before,
            forall|d: int| c <= d < before ==> !occurs_at(l@, q@, d),
        decreases c,
    {
        c = c - 1;
        if matches_at(l, q, c) {
            return Some(c);
        }
    }
    None
}

} // verus!
