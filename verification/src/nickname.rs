//! Display names, validated identically on the client and on the authoritative server.
use vstd::prelude::*;
use crate::text::chars_of;

verus! {

pub const MAX_NICKNAME_CHARS: usize = 20;

/// Whether `c` has the Unicode `White_Space` property, as `char::is_whitespace`
/// decides: tab to carriage return, space, next line, no-break space, ogham
/// space mark, the spaces from en quad to hair space, line and paragraph
/// separators, narrow no-break space, medium mathematical space and
/// ideographic space.
pub open spec fn char_is_whitespace(c: char) -> bool {
    let code = c as u32;
    ||| 0x09 <= code <= 0x0D
    ||| code == 0x20
    ||| code == 0x85
    ||| code == 0xA0
    ||| code == 0x1680
    ||| 0x2000 <= code <= 0x200A
    ||| code == 0x2028
    ||| code == 0x2029
    ||| code == 0x202F
    ||| code == 0x205F
    ||| code == 0x3000
}

/// Whether `c` is alphabetic or numeric in Unicode, as `char::is_alphanumeric` decides.
pub uninterp spec fn char_is_alphanumeric(c: char) -> bool;

/// Whether `c` has the `White_Space` property.
fn is_whitespace(c: char) -> (b: bool)
    ensures
        b == char_is_whitespace(c),
{
    let code = c as u32;
    (0x09 <= code && code <= 0x0D) || code == 0x20 || code == 0x85 || code == 0xA0 || code == 0x1680
        || (0x2000 <= code && code <= 0x200A) || code == 0x2028 || code == 0x2029 || code == 0x202F
        || code == 0x205F || code == 0x3000
}

/// Calls `char::is_alphanumeric`; the result is whether `c` is alphabetic or
/// numeric in Unicode, named by `char_is_alphanumeric` and not written out here.
#[verifier::external_body]
fn is_alphanumeric(c: char) -> (b: bool)
    ensures
        b == char_is_alphanumeric(c),
{
    c.is_alphanumeric()
}

/// `s` without its leading whitespace characters.
pub open spec fn trim_start(s: Seq<char>) -> Seq<char>
    decreases s.len(),
{
    if s.len() > 0 && char_is_whitespace(s[0]) {
        trim_start(s.drop_first())
    } else {
        s
    }
}

/// `s` without its trailing whitespace characters.
pub open spec fn trim_end(s: Seq<char>) -> Seq<char>
    decreases s.len(),
{
    if s.len() > 0 && char_is_whitespace(s.last()) {
        trim_end(s.drop_last())
    } else {
        s
    }
}

/// `s` without leading and trailing whitespace, as `str::trim` returns it.
pub open spec fn trim(s: Seq<char>) -> Seq<char> {
    trim_end(trim_start(s))
}

/// A character a nickname may hold.
pub open spec fn allowed_char(c: char) -> bool {
    char_is_alphanumeric(c) || c == ' ' || c == '_' || c == '-'
}

/// What `validate` answers for the text `s`: the trimmed name, or the reason it is refused.
pub open spec fn validation(s: Seq<char>) -> Result<Seq<char>, Seq<char>> {
    let t = trim(s);
    if t.len() == 0 {
        Err("Enter a nickname."@)
    } else if t.len() > MAX_NICKNAME_CHARS {
        Err("Use at most 20 characters."@)
    } else if !(forall|i: int| 0 <= i < t.len() ==> allowed_char(#[trigger] t[i])) {
        Err("Use letters, numbers, spaces, _ or -."@)
    } else {
        Ok(t)
    }
}

proof fn lemma_trim_start_skip(s: Seq<char>, i: int)
    requires
        0 <= i <= s.len(),
        forall|k: int| 0 <= k < i ==> char_is_whitespace(#[trigger] s[k]),
    ensures
        trim_start(s) == trim_start(s.subrange(i, s.len() as int)),
    decreases i,
{
    if i > 0 {
        assert(s.drop_first() =~= s.subrange(1, s.len() as int));
        lemma_trim_start_skip(s.drop_first(), i - 1);
        assert(s.drop_first().subrange(i - 1, s.drop_first().len() as int) =~= s.subrange(i, s.len() as int));
    } else {
        assert(s.subrange(0, s.len() as int) =~= s);
    }
}

proof fn lemma_trim_end_cut(s: Seq<char>, j: int)
    requires
        0 <= j <= s.len(),
        forall|k: int| j <= k < s.len() ==> char_is_whitespace(#[trigger] s[k]),
    ensures
        trim_end(s) == trim_end(s.subrange(0, j)),
    decreases s.len() - j,
{
    if j < s.len() {
        assert(s.drop_last() =~= s.subrange(0, s.len() - 1));
        lemma_trim_end_cut(s.drop_last(), j);
        assert(s.drop_last().subrange(0, j) =~= s.subrange(0, j));
    } else {
        assert(s.subrange(0, j) =~= s);
    }
}

/// Trimming text whose ends are not whitespace changes nothing.
proof fn lemma_trim_fixed(t: Seq<char>)
    requires
        t.len() == 0 || (!char_is_whitespace(t[0]) && !char_is_whitespace(t.last())),
    ensures
        trim(t) == t,
{
}

/// Trimmed text starts and ends with a character that is not whitespace.
proof fn lemma_trim_ends(s: Seq<char>)
    ensures
        trim(s).len() == 0 || (!char_is_whitespace(trim(s)[0]) && !char_is_whitespace(
            trim(s).last(),
        )),
        trim(s).len() <= s.len(),
    decreases s.len(),
{
    lemma_trim_start_ends(s);
    lemma_trim_end_ends(trim_start(s));
}

proof fn lemma_trim_start_ends(s: Seq<char>)
    ensures
        trim_start(s).len() == 0 || !char_is_whitespace(trim_start(s)[0]),
        trim_start(s).len() <= s.len(),
        exists|i: int| 0 <= i <= s.len() && trim_start(s) == s.subrange(i, s.len() as int),
    decreases s.len(),
{
    if s.len() > 0 && char_is_whitespace(s[0]) {
        lemma_trim_start_ends(s.drop_first());
        let i = choose|i: int| 0 <= i <= s.drop_first().len() && trim_start(s.drop_first()) == s.drop_first().subrange(i, s.drop_first().len() as int);
        assert(s.drop_first().subrange(i, s.drop_first().len() as int) =~= s.subrange(i + 1, s.len() as int));
    } else {
        assert(s.subrange(0, s.len() as int) =~= s);
    }
}

proof fn lemma_trim_end_ends(s: Seq<char>)
    ensures
        trim_end(s).len() == 0 || !char_is_whitespace(trim_end(s).last()),
        trim_end(s).len() <= s.len(),
        trim_end(s).len() > 0 ==> trim_end(s)[0] == s[0],
    decreases s.len(),
{
    if s.len() > 0 && char_is_whitespace(s.last()) {
        lemma_trim_end_ends(s.drop_last());
    }
}

/// How many whitespace characters `s` starts with.
pub open spec fn lead(s: Seq<char>) -> nat
    decreases s.len(),
{
    if s.len() > 0 && char_is_whitespace(s[0]) {
        1 + lead(s.drop_first())
    } else {
        0
    }
}

/// A character a nickname may hold, given whether it is alphanumeric.
pub open spec fn flagged_char(c: char, alphanumeric: bool) -> bool {
    alphanumeric || c == ' ' || c == '_' || c == '-'
}

/// What validation answers for the text `s` when `alphanumeric[k]` says
/// whether `s[k]` is alphanumeric: the trimmed name, or the reason it is refused.
pub open spec fn validation_flagged(s: Seq<char>, alphanumeric: Seq<bool>) -> Result<Seq<char>, Seq<char>> {
    let t = trim(s);
    let k = lead(s);
    if t.len() == 0 {
        Err("Enter a nickname."@)
    } else if t.len() > MAX_NICKNAME_CHARS {
        Err("Use at most 20 characters."@)
    } else if !(forall|m: int| 0 <= m < t.len() ==> flagged_char(#[trigger] t[m], alphanumeric[k + m])) {
        Err("Use letters, numbers, spaces, _ or -."@)
    } else {
        Ok(t)
    }
}

proof fn lemma_lead_at(s: Seq<char>, i: int)
    requires
        0 <= i <= s.len(),
        forall|k: int| 0 <= k < i ==> char_is_whitespace(#[trigger] s[k]),
        i == s.len() || !char_is_whitespace(s[i]),
    ensures
        lead(s) == i,
    decreases i,
{
    if i > 0 {
        assert forall|k: int| 0 <= k < i - 1 implies char_is_whitespace(#[trigger] s.drop_first()[k]) by {
            assert(s.drop_first()[k] == s[k + 1]);
        }
        if i < s.len() {
            assert(s.drop_first()[i - 1] == s[i]);
        }
        lemma_lead_at(s.drop_first(), i - 1);
    }
}

proof fn lemma_lead_exists(s: Seq<char>)
    ensures
        0 <= lead(s) <= s.len(),
        forall|k: int| 0 <= k < lead(s) ==> char_is_whitespace(#[trigger] s[k]),
        lead(s) == s.len() || !char_is_whitespace(s[lead(s) as int]),
        trim_start(s) == s.subrange(lead(s) as int, s.len() as int),
    decreases s.len(),
{
    if s.len() > 0 && char_is_whitespace(s[0]) {
        let r = s.drop_first();
        lemma_lead_exists(r);
        assert forall|k: int| 0 <= k < lead(s) implies char_is_whitespace(#[trigger] s[k]) by {
            if k > 0 {
                assert(s[k] == r[k - 1]);
            }
        }
        if lead(r) < r.len() {
            assert(s[lead(s) as int] == r[lead(r) as int]);
        }
        assert(r.subrange(lead(r) as int, r.len() as int) =~= s.subrange(lead(s) as int, s.len() as int));
    } else {
        assert(s.subrange(0, s.len() as int) =~= s);
    }
}

proof fn lemma_trim_end_prefix(s: Seq<char>)
    ensures
        trim_end(s).len() <= s.len(),
        trim_end(s) == s.subrange(0, trim_end(s).len() as int),
    decreases s.len(),
{
    if s.len() > 0 && char_is_whitespace(s.last()) {
        lemma_trim_end_prefix(s.drop_last());
        assert(s.drop_last().subrange(0, trim_end(s).len() as int) =~= s.subrange(0, trim_end(s).len() as int));
    } else {
        assert(s.subrange(0, s.len() as int) =~= s);
    }
}

/// The trimmed text is the stretch of `s` after its leading whitespace.
proof fn lemma_trim_at_lead(s: Seq<char>)
    ensures
        lead(s) + trim(s).len() <= s.len(),
        forall|m: int| 0 <= m < trim(s).len() ==> #[trigger] trim(s)[m] == s[lead(s) + m],
{
    lemma_lead_exists(s);
    let rest = s.subrange(lead(s) as int, s.len() as int);
    lemma_trim_end_prefix(rest);
}

/// With the alphanumeric answers that `char::is_alphanumeric` gives, the
/// flagged validation is the validation.
proof fn lemma_flagged_is_validation(s: Seq<char>, alphanumeric: Seq<bool>)
    requires
        alphanumeric.len() == s.len(),
        forall|k: int| 0 <= k < s.len() ==> alphanumeric[k] == char_is_alphanumeric(#[trigger] s[k]),
    ensures
        validation_flagged(s, alphanumeric) == validation(s),
{
    lemma_trim_at_lead(s);
    let t = trim(s);
    let k = lead(s);
    assert forall|m: int| 0 <= m < t.len() implies flagged_char(#[trigger] t[m], alphanumeric[k + m]) == allowed_char(t[m]) by {
        assert(t[m] == s[k + m]);
    }
}

/// Validate `value` when `alphanumeric[k]` tells whether its `k`-th character
/// is alphanumeric: trim it, then accept it only when it holds one to twenty
/// letters, digits, spaces, underscores or hyphens.
pub fn validate_flagged(value: &str, alphanumeric: &[bool]) -> (r: Result<String, &'static str>)
    requires
        alphanumeric@.len() == value@.len(),
    ensures
        match r {
            Ok(name) => validation_flagged(value@, alphanumeric@) == Ok::<Seq<char>, Seq<char>>(name@),
            Err(reason) => validation_flagged(value@, alphanumeric@) == Err::<Seq<char>, Seq<char>>(reason@),
        },
{
    let chars = chars_of(value);
    let n = chars.len();
    let mut i: usize = 0;
    while i < n && is_whitespace(chars[i])
        invariant
            0 <= i <= n,
            n == chars@.len(),
            chars@ == value@,
            forall|k: int| 0 <= k < i ==> char_is_whitespace(#[trigger] chars@[k]),
        decreases n - i,
    {
        i = i + 1;
    }
    let mut j: usize = n;
    while j > i && is_whitespace(chars[j - 1])
        invariant
            i <= j <= n,
            n == chars@.len(),
            chars@ == value@,
            forall|k: int| j <= k < n ==> char_is_whitespace(#[trigger] chars@[k]),
        decreases j - i,
    {
        j = j - 1;
    }
    proof {
        let s = value@;
        lemma_lead_at(s, i as int);
        lemma_trim_start_skip(s, i as int);
        let rest = s.subrange(i as int, n as int);
        if i < n {
            assert(!char_is_whitespace(rest[0]));
        }
        assert(trim_start(rest) == rest);
        lemma_trim_end_cut(rest, (j - i) as int);
        assert(rest.subrange(0, (j - i) as int) =~= s.subrange(i as int, j as int));
        let t = s.subrange(i as int, j as int);
        if j > i {
            assert(!char_is_whitespace(t.last()));
        }
        assert(trim_end(t) == t);
        assert(trim(s) == t);
    }
    let ghost t = value@.subrange(i as int, j as int);
    if j == i {
        return Err("Enter a nickname.");
    }
    if j - i > MAX_NICKNAME_CHARS {
        return Err("Use at most 20 characters.");
    }
    let mut k: usize = i;
    while k < j
        invariant
            i <= k <= j,
            i < j,
            j - i <= MAX_NICKNAME_CHARS,
            j <= n,
            n == chars@.len(),
            n == alphanumeric@.len(),
            chars@ == value@,
            t == value@.subrange(i as int, j as int),
            trim(value@) == t,
            lead(value@) == i,
            forall|m: int| 0 <= m < k - i ==> flagged_char(#[trigger] t[m], alphanumeric@[i + m]),
        decreases j - k,
    {
        let c = chars[k];
        if !(alphanumeric[k] || c == ' ' || c == '_' || c == '-') {
            assert(!flagged_char(t[k - i], alphanumeric@[i + (k - i)]));
            return Err("Use letters, numbers, spaces, _ or -.");
        }
        k = k + 1;
    }
    let trimmed: &str = value.substring_char(i, j);
    Ok(trimmed.to_owned())
}

/// Trim `value`, then accept it only when it holds one to twenty letters,
/// digits, spaces, underscores or hyphens.
pub fn validate(value: &str) -> (r: Result<String, &'static str>)
    ensures
        match r {
            Ok(name) => validation(value@) == Ok::<Seq<char>, Seq<char>>(name@),
            Err(reason) => validation(value@) == Err::<Seq<char>, Seq<char>>(reason@),
        },
{
    let chars = chars_of(value);
    let mut alphanumeric: Vec<bool> = Vec::new();
    let mut k: usize = 0;
    while k < chars.len()
        invariant
            0 <= k <= chars@.len(),
            chars@ == value@,
            alphanumeric@.len() == k,
            forall|m: int| 0 <= m < k ==> alphanumeric@[m] == char_is_alphanumeric(#[trigger] chars@[m]),
        decreases chars@.len() - k,
    {
        alphanumeric.push(is_alphanumeric(chars[k]));
        k = k + 1;
    }
    proof {
        lemma_flagged_is_validation(value@, alphanumeric@);
    }
    validate_flagged(value, alphanumeric.as_slice())
}

/// Validating a name that validation produced gives that same name back: the
/// client's check and the server's check cannot disagree on an accepted name.
pub proof fn lemma_validate_accepts_its_output(s: Seq<char>)
    requires
        validation(s) is Ok,
    ensures
        validation(validation(s)->Ok_0) == validation(s),
{
    lemma_trim_ends(s);
    lemma_trim_fixed(trim(s));
}

} // verus!
