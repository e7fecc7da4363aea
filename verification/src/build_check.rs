//! The server refuses a WebSocket upgrade unless the client's query string
//! names exactly the simulation build the server runs.
use vstd::prelude::*;
use crate::native::same_text;
use vstd::string::StringSliceAdditionalSpecFns;

verus! {

/// The (name, value) pairs that `form_urlencoded::parse` decodes from `input`:
/// `&`-separated, `=`-split, with `+` and percent escapes decoded.
pub uninterp spec fn form_urlencoded_pairs(input: Seq<u8>) -> Seq<(Seq<char>, Seq<char>)>;

/// Calls `url::form_urlencoded::parse` and collects the decoded pairs as
/// owned strings.  The pairs are named by `form_urlencoded_pairs`; the
/// decoding itself (splitting and percent-decoding) is not written out here.
#[verifier::external_body]
fn parse_query(input: &[u8]) -> (pairs: Vec<(String, String)>)
    ensures
        pairs@.map_values(|p: (String, String)| (p.0@, p.1@)) == form_urlencoded_pairs(input@),
{
    url::form_urlencoded::parse(input).into_owned().collect()
}

/// The values of the pairs named `build`, in order.
pub open spec fn build_values(pairs: Seq<(Seq<char>, Seq<char>)>) -> Seq<Seq<char>>
    decreases pairs.len(),
{
    if pairs.len() == 0 {
        seq![]
    } else {
        let earlier = build_values(pairs.drop_last());
        if pairs.last().0 == "build"@ {
            earlier.push(pairs.last().1)
        } else {
            earlier
        }
    }
}

/// Whether the pairs hold exactly one `build` value, and it is `expected`.
pub open spec fn build_agrees(pairs: Seq<(Seq<char>, Seq<char>)>, expected: Seq<char>) -> bool {
    build_values(pairs).len() == 1 && build_values(pairs)[0] == expected
}

/// Whether decoded query pairs name exactly one build, `expected`.
pub fn build_matches(pairs: &Vec<(String, String)>, expected: &str) -> (ok: bool)
    ensures
        ok == build_agrees(pairs@.map_values(|p: (String, String)| (p.0@, p.1@)), expected@),
{
    let ghost view = pairs@.map_values(|p: (String, String)| (p.0@, p.1@));
    let mut count: usize = 0;
    let mut first_matches = false;
    let mut k: usize = 0;
    while k < pairs.len()
        invariant
            0 <= k <= pairs@.len(),
            view == pairs@.map_values(|p: (String, String)| (p.0@, p.1@)),
            count == build_values(view.take(k as int)).len(),
            count <= k,
            count >= 1 ==> first_matches == (build_values(view.take(k as int))[0] == expected@),
        decreases pairs@.len() - k,
    {
        assert(view.take(k + 1).drop_last() =~= view.take(k as int));
        let ghost before = build_values(view.take(k as int));
        if same_text(pairs[k].0.as_str(), "build") {
            if count == 0 {
                first_matches = same_text(pairs[k].1.as_str(), expected);
            }
            count = count + 1;
        }
        proof {
            if count >= 1 && before.len() >= 1 {
                assert(build_values(view.take(k + 1))[0] == before[0]);
            }
        }
        k = k + 1;
    }
    assert(view.take(pairs@.len() as int) =~= view);
    count == 1 && first_matches
}

/// Whether the upgrade request's query string (absent counts as empty) names
/// exactly one build, `expected`.
pub fn build_accepted(query: Option<&str>, expected: &str) -> (ok: bool)
    ensures
        ok == build_agrees(
            form_urlencoded_pairs(
                match query {
                    Some(q) => q.spec_bytes(),
                    None => seq![],
                },
            ),
            expected@,
        ),
{
    let text = match query {
        Some(q) => q,
        None => "",
    };
    proof {
        if query is None {
            reveal_strlit("");
            assert(text.spec_bytes() =~= seq![]);
        }
    }
    let pairs = parse_query(text.as_bytes());
    build_matches(&pairs, expected)
}

} // verus!
