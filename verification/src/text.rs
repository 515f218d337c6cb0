use vstd::prelude::*;

verus! {

/// The character sequence that `str::trim` leaves: the input without its
/// leading and trailing whitespace.
pub uninterp spec fn trim_of(s: Seq<char>) -> Seq<char>;

/// The character sequence that `str::to_lowercase` produces for the input.
pub uninterp spec fn lower_of(s: Seq<char>) -> Seq<char>;

/// Relies on str::trim: removes leading and trailing whitespace; the result
/// depends on the characters alone.
#[verifier::external_body]
fn trim_string(s: &String) -> (r: String)
    ensures
        r@ == trim_of(s@),
{
    s.trim().to_string()
}

/// Relies on str::to_lowercase: lowercases the string; the result depends on
/// the characters alone.
#[verifier::external_body]
pub(crate) fn lowercase_string(s: &String) -> (r: String)
    ensures
        r@ == lower_of(s@),
{
    s.to_lowercase()
}

/// The views of an optional list of names; an absent list reads as empty.
pub open spec fn names_view(items: Option<Vec<String>>) -> Seq<Seq<char>> {
    match items {
        Some(v) => v@.map_values(|s: String| s@),
        None => Seq::empty(),
    }
}

/// What normalization keeps: each name trimmed, empty results dropped, the
/// order of the survivors preserved.
pub open spec fn normalized_names(names: Seq<Seq<char>>) -> Seq<Seq<char>>
    decreases names.len(),
{
    if names.len() == 0 {
        Seq::empty()
    } else {
        let rest = normalized_names(names.drop_last());
        let trimmed = trim_of(names.last());
        if trimmed.len() > 0 {
            rest.push(trimmed)
        } else {
            rest
        }
    }
}

/// Normalizes a submitted item list: trims each name and drops the ones that
/// trim to nothing, keeping the order of the survivors.
pub fn normalize_items(items: Option<Vec<String>>) -> (r: Vec<String>)
    ensures
        r@.map_values(|s: String| s@) == normalized_names(names_view(items)),
{
    let ghost all_names = names_view(items);
    match items {
        None => {
            let r: Vec<String> = Vec::new();
            proof {
                assert(r@.map_values(|s: String| s@) =~= normalized_names(all_names));
            }
            r
        },
        Some(v) => {
            let n = v.len();
            let mut out: Vec<String> = Vec::new();
            proof {
                assert(v@.take(0).map_values(|s: String| s@) =~= Seq::<Seq<char>>::empty());
                assert(out@.map_values(|s: String| s@) =~= normalized_names(
                    v@.take(0).map_values(|s: String| s@),
                ));
            }
            for i in 0..n
                invariant
                    n == v@.len(),
                    out@.map_values(|s: String| s@) == normalized_names(
                        v@.take(i as int).map_values(|s: String| s@),
                    ),
            {
                let trimmed = trim_string(&v[i]);
                proof {
                    let prev = v@.take(i as int).map_values(|s: String| s@);
                    let cur = v@.take(i + 1).map_values(|s: String| s@);
                    assert(cur.drop_last() =~= prev);
                    assert(cur.last() == v@[i as int]@);
                }
                if !trimmed.as_str().is_empty() {
                    let ghost out_views = out@.map_values(|s: String| s@);
                    out.push(trimmed);
                    proof {
                        assert(out@.map_values(|s: String| s@) =~= out_views.push(trimmed@));
                    }
                }
            }
            proof {
                assert(v@.take(n as int) =~= v@);
                assert(all_names =~= v@.map_values(|s: String| s@));
            }
            out
        },
    }
}

} // verus!
