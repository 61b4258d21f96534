//! Secondary ranking criteria: how two participants with the same arrival
//! time are told apart.
use crate::number::{decimal_i32, parse_i32};
use std::cmp::Ordering;
use vstd::prelude::*;
use vstd::string::StrSliceExecFns;

verus! {

/// One ranking criterion: a value and the kind that says how to read it.
#[derive(Debug, PartialEq, Eq)]
pub struct Criterion {
    /// The value, as text.
    pub value: String,
    /// The kind of the value: `"int"`, `"date"`, or any other word.
    pub kind: String,
}

impl View for Criterion {
    type V = (Seq<char>, Seq<char>);

    open spec fn view(&self) -> (Seq<char>, Seq<char>) {
        (self.value@, self.kind@)
    }
}

/// The pairs of value and kind that a list of criteria holds.
pub open spec fn criteria_view(v: Seq<Criterion>) -> Seq<(Seq<char>, Seq<char>)> {
    Seq::new(v.len(), |i: int| v[i]@)
}

/// How the first of two things stands to the second.
#[derive(Clone, Copy, Debug, PartialEq, Eq, Structural)]
pub enum Rank {
    /// The first is below the second.
    Lower,
    /// Neither is below the other.
    Same,
    /// The first is above the second.
    Higher,
}

/// What `serde_json::from_str` makes of `data` when asked for a list of pairs
/// of strings: the pairs, or `None` where `data` is not a JSON array of
/// two-element arrays of strings.
pub uninterp spec fn json_pairs(data: Seq<char>) -> Option<Seq<(Seq<char>, Seq<char>)>>;

/// The criteria that a payload holds; a payload that cannot be read holds
/// none.
pub open spec fn criteria_of(data: Seq<char>) -> Seq<(Seq<char>, Seq<char>)> {
    match json_pairs(data) {
        Some(pairs) => pairs,
        None => Seq::empty(),
    }
}

/// Whether values of this kind are compared as integers.
pub open spec fn numeric_kind(kind: Seq<char>) -> bool {
    kind == seq!['d', 'a', 't', 'e'] || kind == seq!['i', 'n', 't']
}

/// How criterion `a` stands to criterion `b` at the same position. The kind
/// of `a` decides: where it is numeric and both values are integers, the
/// integers are compared; otherwise the two are level.
pub open spec fn rank_at(a: (Seq<char>, Seq<char>), b: (Seq<char>, Seq<char>)) -> Rank {
    if numeric_kind(a.1) {
        match (decimal_i32(a.0), decimal_i32(b.0)) {
            (Some(x), Some(y)) => if x < y {
                Rank::Lower
            } else if x > y {
                Rank::Higher
            } else {
                Rank::Same
            },
            _ => Rank::Same,
        }
    } else {
        Rank::Same
    }
}

/// How the criteria `a` stand to the criteria `b`: the first position that
/// both lists have and at which they are not level decides; without such a
/// position the lists are level.
pub open spec fn rank_criteria(
    a: Seq<(Seq<char>, Seq<char>)>,
    b: Seq<(Seq<char>, Seq<char>)>,
) -> Rank
    decreases a.len(),
{
    if a.len() == 0 || b.len() == 0 {
        Rank::Same
    } else if rank_at(a[0], b[0]) != Rank::Same {
        rank_at(a[0], b[0])
    } else {
        rank_criteria(a.drop_first(), b.drop_first())
    }
}

/// How the payload `left` stands to the payload `right`.
pub open spec fn rank_params(left: Seq<char>, right: Seq<char>) -> Rank {
    rank_criteria(criteria_of(left), criteria_of(right))
}

/// The standard ordering that says the same as `rank`.
pub open spec fn ordering_of(rank: Rank) -> Ordering {
    match rank {
        Rank::Lower => Ordering::Less,
        Rank::Same => Ordering::Equal,
        Rank::Higher => Ordering::Greater,
    }
}

/// Reads a payload with `serde_json::from_str`, asking for a list of pairs of
/// strings. Nothing is proved of the reading itself: the result is whatever
/// serde_json gives for this text, which depends on the text alone.
#[verifier::external_body]
fn parse_as_vec(data: &str) -> (r: Option<Vec<Criterion>>)
    ensures
        match r {
            Some(v) => json_pairs(data@) == Some(criteria_view(v@)),
            None => json_pairs(data@) is None,
        },
{
    let pairs = serde_json::from_str::<Vec<(String, String)>>(data).ok()?;
    Some(pairs.into_iter().map(|(value, kind)| Criterion { value, kind }).collect())
}

/// The criteria that a payload holds, none where it cannot be read.
pub fn read_criteria(data: &str) -> (r: Vec<Criterion>)
    ensures
        criteria_view(r@) == criteria_of(data@),
{
    match parse_as_vec(data) {
        Some(v) => v,
        None => {
            let v: Vec<Criterion> = Vec::new();
            assert(criteria_view(v@) =~= Seq::empty());
            v
        },
    }
}

fn is_numeric_kind(kind: &str) -> (r: bool)
    ensures
        r == numeric_kind(kind@),
{
    let n: usize = kind.unicode_len();
    if n == 4 {
        let r = kind.get_char(0) == 'd' && kind.get_char(1) == 'a' && kind.get_char(2) == 't'
            && kind.get_char(3) == 'e';
        assert(r ==> kind@ =~= seq!['d', 'a', 't', 'e']);
        r
    } else if n == 3 {
        let r = kind.get_char(0) == 'i' && kind.get_char(1) == 'n' && kind.get_char(2) == 't';
        assert(r ==> kind@ =~= seq!['i', 'n', 't']);
        r
    } else {
        false
    }
}

/// Compares two criteria that stand at the same position.
pub fn compare_criterion(a: &Criterion, b: &Criterion) -> (r: Rank)
    ensures
        r == rank_at(a@, b@),
{
    if !is_numeric_kind(a.kind.as_str()) {
        return Rank::Same;
    }
    match (parse_i32(a.value.as_str()), parse_i32(b.value.as_str())) {
        (Some(x), Some(y)) => {
            if x < y {
                Rank::Lower
            } else if x > y {
                Rank::Higher
            } else {
                Rank::Same
            }
        },
        _ => Rank::Same,
    }
}

/// Compares two lists of criteria position by position.
pub fn compare_criteria(a: &Vec<Criterion>, b: &Vec<Criterion>) -> (r: Rank)
    ensures
        r == rank_criteria(criteria_view(a@), criteria_view(b@)),
{
    let ghost av = criteria_view(a@);
    let ghost bv = criteria_view(b@);
    let mut i: usize = 0;
    proof {
        assert(av.skip(0) =~= av);
        assert(bv.skip(0) =~= bv);
    }
    while i < a.len() && i < b.len()
        invariant
            i <= a.len(),
            i <= b.len(),
            av == criteria_view(a@),
            bv == criteria_view(b@),
            rank_criteria(av, bv) == rank_criteria(av.skip(i as int), bv.skip(i as int)),
        decreases a.len() - i,
    {
        let c = compare_criterion(&a[i], &b[i]);
        proof {
            assert(av.skip(i as int)[0] == a@[i as int]@);
            assert(bv.skip(i as int)[0] == b@[i as int]@);
            assert(av.skip(i as int).drop_first() =~= av.skip(i as int + 1));
            assert(bv.skip(i as int).drop_first() =~= bv.skip(i as int + 1));
        }
        if c != Rank::Same {
            return c;
        }
        i += 1;
    }
    proof {
        assert(av.skip(i as int).len() == 0 || bv.skip(i as int).len() == 0);
    }
    Rank::Same
}

/// Compares two payloads: reads each, then compares the criteria.
pub fn rank_by_params(left: &str, right: &str) -> (r: Rank)
    ensures
        r == rank_params(left@, right@),
{
    let a = read_criteria(left);
    let b = read_criteria(right);
    compare_criteria(&a, &b)
}

/// Compares two payloads, with the result as a standard ordering: `Less`
/// where the first payload holds the smaller integer at the first position
/// that tells the two apart.
pub fn compare_by_params(left: &str, right: &str) -> (r: Ordering)
    ensures
        r == ordering_of(rank_params(left@, right@)),
{
    match rank_by_params(left, right) {
        Rank::Lower => Ordering::Less,
        Rank::Same => Ordering::Equal,
        Rank::Higher => Ordering::Greater,
    }
}

} // verus!
