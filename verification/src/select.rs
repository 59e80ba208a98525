use vstd::prelude::*;

use crate::plane::Error;

verus! {

/// A grayscale plane shape: exactly two dimensions, or exactly three
/// dimensions whose trailing extent equals one.
pub open spec fn is_gray_shape(s: Seq<usize>) -> bool {
    s.len() == 2 || (s.len() == 3 && s[2] == 1)
}

/// Decides whether a shape describes a grayscale plane.
pub fn is_grayscale_shape(shape: &Vec<usize>) -> (r: bool)
    ensures
        r == is_gray_shape(shape@),
{
    shape.len() == 2 || (shape.len() == 3 && shape[2] == 1)
}

/// An extension is a candidate when its data is of a recognized numeric
/// encoding (`Some(shape)`) and that shape is grayscale. Extensions of
/// unrecognized encodings (`None`) never count.
pub open spec fn is_candidate(e: Option<Vec<usize>>) -> bool {
    match e {
        Some(s) => is_gray_shape(s@),
        None => false,
    }
}

/// How many extensions of the container are grayscale candidates.
pub open spec fn count_candidates(s: Seq<Option<Vec<usize>>>) -> int
    decreases s.len(),
{
    if s.len() == 0 {
        0
    } else {
        count_candidates(s.drop_last()) + if is_candidate(s.last()) {
            1int
        } else {
            0int
        }
    }
}

proof fn lemma_count_take_step(s: Seq<Option<Vec<usize>>>, n: int)
    requires
        0 <= n < s.len(),
    ensures
        count_candidates(s.take(n + 1)) == count_candidates(s.take(n)) + if is_candidate(s[n]) {
            1int
        } else {
            0int
        },
{
    assert(s.take(n + 1).drop_last() =~= s.take(n));
    assert(s.take(n + 1).last() == s[n]);
}

proof fn lemma_count_from(s: Seq<Option<Vec<usize>>>, n: int)
    requires
        0 <= n <= s.len(),
    ensures
        count_candidates(s) >= count_candidates(s.take(n)),
    decreases s.len() - n,
{
    if n == s.len() {
        assert(s.take(n) =~= s);
    } else {
        lemma_count_take_step(s, n);
        lemma_count_from(s, n + 1);
    }
}

/// Finds the index of the unique grayscale candidate among the extensions
/// of one container, given each extension's shape (`None` for an extension
/// whose data encoding is not a recognized numeric one).
///
/// Succeeds exactly when the container holds one candidate; two or more
/// candidates are ambiguous, zero means no grayscale data.
pub fn find_mono_index(shapes: &Vec<Option<Vec<usize>>>) -> (res: Result<usize, Error>)
    ensures
        res is Ok <==> count_candidates(shapes@) == 1,
        res matches Ok(i) ==> i < shapes@.len() && is_candidate(shapes@[i as int]) && (forall|
            j: int,
        | 0 <= j < shapes@.len() && j != i ==> !is_candidate(shapes@[j])),
        res matches Err(e) ==> (e == Error::GrayscaleNotFound <==> count_candidates(shapes@)
            == 0),
        res matches Err(e) ==> e == Error::GrayscaleNotFound || e == Error::AmbiguousGrayscale,
{
    let n = shapes.len();
    let mut found: Option<usize> = None;
    let mut i: usize = 0;
    while i < n
        invariant
            n == shapes@.len(),
            i <= n,
            found is None ==> count_candidates(shapes@.take(i as int)) == 0 && (forall|j: int|
                0 <= j < i ==> !is_candidate(shapes@[j])),
            found matches Some(k) ==> k < i && is_candidate(shapes@[k as int]) && count_candidates(
                shapes@.take(i as int),
            ) == 1 && (forall|j: int| 0 <= j < i && j != k ==> !is_candidate(shapes@[j])),
        decreases n - i,
    {
        let cand = match &shapes[i] {
            Some(s) => is_grayscale_shape(s),
            None => false,
        };
        proof {
            lemma_count_take_step(shapes@, i as int);
        }
        if cand {
            if found.is_none() {
                found = Some(i);
            } else {
                proof {
                    lemma_count_from(shapes@, i as int + 1);
                }
                return Err(Error::AmbiguousGrayscale);
            }
        }
        i += 1;
    }
    proof {
        assert(shapes@.take(n as int) =~= shapes@);
    }
    match found {
        Some(k) => Ok(k),
        None => Err(Error::GrayscaleNotFound),
    }
}

} // verus!
