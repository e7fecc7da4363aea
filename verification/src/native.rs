//! Command-line options of the native client.
use vstd::prelude::*;
use crate::text::chars_of;

verus! {

/// The value of a run of ASCII decimal digits.
pub open spec fn digits_value(d: Seq<char>) -> int
    decreases d.len(),
{
    if d.len() == 0 {
        0
    } else {
        digits_value(d.drop_last()) * 10 + (d.last() as int - '0' as int)
    }
}

pub open spec fn is_digit(c: char) -> bool {
    '0' <= c <= '9'
}

/// What `str::parse::<u32>` gives for `s`: an optional `+` sign followed by at
/// least one decimal digit, whose value fits in a `u32`.
pub open spec fn parsed_u32(s: Seq<char>) -> Option<u32> {
    let d = unsigned_digits(s);
    if d.len() > 0 && all_digits(d) && digits_value(d) <= u32::MAX {
        Some(digits_value(d) as u32)
    } else {
        None
    }
}

/// `s` without its leading `+` sign, if any.
pub open spec fn unsigned_digits(s: Seq<char>) -> Seq<char> {
    if s.len() > 0 && s[0] == '+' {
        s.drop_first()
    } else {
        s
    }
}

/// Whether every character of `d` is an ASCII decimal digit.
pub open spec fn all_digits(d: Seq<char>) -> bool {
    forall|i: int| 0 <= i < d.len() ==> is_digit(#[trigger] d[i])
}

proof fn lemma_digits_value_nonneg(d: Seq<char>)
    requires
        forall|i: int| 0 <= i < d.len() ==> is_digit(#[trigger] d[i]),
    ensures
        digits_value(d) >= 0,
    decreases d.len(),
{
    if d.len() > 0 {
        lemma_digits_value_nonneg(d.drop_last());
    }
}

proof fn lemma_digits_value_grows(d: Seq<char>, k: int)
    requires
        0 <= k <= d.len(),
        forall|i: int| 0 <= i < d.len() ==> is_digit(#[trigger] d[i]),
    ensures
        digits_value(d.take(k)) <= digits_value(d),
    decreases d.len() - k,
{
    if k < d.len() {
        lemma_digits_value_grows(d, k + 1);
        assert(d.take(k + 1).drop_last() =~= d.take(k));
        lemma_digits_value_nonneg(d.take(k));
    } else {
        assert(d.take(k) =~= d);
    }
}

/// Decimal `u32` parsing with the grammar and range of `str::parse::<u32>`.
pub fn parse_u32(s: &str) -> (r: Option<u32>)
    ensures
        r == parsed_u32(s@),
{
    let chars = chars_of(s);
    let n = chars.len();
    let start: usize = if n > 0 && chars[0] == '+' {
        1
    } else {
        0
    };
    let ghost d = unsigned_digits(s@);
    assert(d =~= s@.subrange(start as int, n as int));
    if start == n {
        return None;
    }
    let mut value: u64 = 0;
    let mut i: usize = start;
    while i < n
        invariant
            start <= i <= n,
            n == chars@.len(),
            chars@ == s@,
            d == s@.subrange(start as int, n as int),
            d == unsigned_digits(s@),
            forall|k: int| 0 <= k < i - start ==> is_digit(#[trigger] d[k]),
            value == digits_value(d.take(i - start)),
            value <= u32::MAX,
        decreases n - i,
    {
        let c = chars[i];
        if !('0' <= c && c <= '9') {
            assert(!is_digit(d[i - start]));
            assert(!all_digits(d));
            return None;
        }
        let digit = (c as u32 - '0' as u32) as u64;
        assert(d.take(i - start + 1).drop_last() =~= d.take(i - start));
        let next = value * 10 + digit;
        if next > u32::MAX as u64 {
            proof {
                assert(d.take(i - start + 1).last() == c);
                assert(digits_value(d.take(i - start + 1)) == next);
                if all_digits(d) {
                    lemma_digits_value_grows(d, i - start + 1);
                }
            }
            return None;
        }
        value = next;
        i = i + 1;
    }
    assert(d.take(n - start) =~= d);
    Some(value as u32)
}

/// Whether `s` begins with `prefix`.
pub open spec fn has_prefix(s: Seq<char>, prefix: Seq<char>) -> bool {
    prefix.len() <= s.len() && s.subrange(0, prefix.len() as int) == prefix
}

/// Whether `s` begins with `prefix`, as `str::starts_with` with a `&str` pattern.
pub fn starts_with(s: &str, prefix: &str) -> (r: bool)
    ensures
        r == has_prefix(s@, prefix@),
{
    let a = chars_of(s);
    let b = chars_of(prefix);
    if b.len() > a.len() {
        return false;
    }
    let mut i: usize = 0;
    while i < b.len()
        invariant
            0 <= i <= b@.len(),
            b@.len() <= a@.len(),
            a@ == s@,
            b@ == prefix@,
            forall|k: int| 0 <= k < i ==> a@[k] == b@[k],
        decreases b@.len() - i,
    {
        if a[i] != b[i] {
            assert(s@.subrange(0, prefix@.len() as int)[i as int] != prefix@[i as int]);
            return false;
        }
        i = i + 1;
    }
    assert(s@.subrange(0, prefix@.len() as int) =~= prefix@);
    true
}

/// Whether `s` is the text `t`.
pub fn same_text(s: &str, t: &str) -> (r: bool)
    ensures
        r == (s@ == t@),
{
    let a = chars_of(s);
    let b = chars_of(t);
    if a.len() != b.len() {
        return false;
    }
    let mut i: usize = 0;
    while i < a.len()
        invariant
            0 <= i <= a@.len(),
            a@.len() == b@.len(),
            a@ == s@,
            b@ == t@,
            forall|k: int| 0 <= k < i ==> a@[k] == b@[k],
        decreases a@.len() - i,
    {
        if a[i] != b[i] {
            return false;
        }
        i = i + 1;
    }
    assert(a@ =~= b@);
    true
}

/// The native client's settings: server URL, requested window size and
/// whether VSync is off.
pub struct Options {
    pub server: String,
    pub width: u32,
    pub height: u32,
    pub uncapped: bool,
}

/// The settings before any argument: a local server, 1280 by 720, VSync on.
pub open spec fn default_options() -> (Seq<char>, u32, u32, bool) {
    ("ws://127.0.0.1:5000"@, 1280, 720, false)
}

/// A window size an option may request, in pixels.
pub open spec fn pixels_ok(p: Option<u32>) -> bool {
    p matches Some(v) && 64 <= v <= 16384
}

/// The outcome of reading the arguments from index `i` on, with settings `o`
/// so far: the settings, `None` when help was asked for, or the error message.
pub open spec fn options_from(args: Seq<Seq<char>>, i: int, o: (Seq<char>, u32, u32, bool)) -> Result<
    Option<(Seq<char>, u32, u32, bool)>,
    Seq<char>,
>
    decreases args.len() - i,
{
    if i < 0 || i >= args.len() {
        Ok(Some(o))
    } else {
        let arg = args[i];
        if arg == "--help"@ || arg == "-h"@ {
            Ok(None)
        } else if arg == "--uncapped"@ {
            options_from(args, i + 1, (o.0, o.1, o.2, true))
        } else if arg == "--server"@ || arg == "--width"@ || arg == "--height"@ {
            if i + 1 >= args.len() {
                Err(arg + " requires a value"@)
            } else {
                let value = args[i + 1];
                if arg == "--server"@ {
                    if !has_prefix(value, "ws://"@) && !has_prefix(value, "wss://"@) {
                        Err("--server must start with ws:// or wss://"@)
                    } else {
                        options_from(args, i + 2, (value, o.1, o.2, o.3))
                    }
                } else if !pixels_ok(parsed_u32(value)) {
                    Err(arg + " must be between 64 and 16384 pixels"@)
                } else if arg == "--width"@ {
                    options_from(args, i + 2, (o.0, parsed_u32(value)->0, o.2, o.3))
                } else {
                    options_from(args, i + 2, (o.0, o.1, parsed_u32(value)->0, o.3))
                }
            }
        } else {
            Err("unknown option: "@ + arg)
        }
    }
}

proof fn lemma_option_names_differ()
    ensures
        "--server"@ != "--help"@,
        "--server"@ != "-h"@,
        "--server"@ != "--uncapped"@,
        "--width"@ != "--help"@,
        "--width"@ != "-h"@,
        "--width"@ != "--uncapped"@,
        "--width"@ != "--server"@,
        "--height"@ != "--help"@,
        "--height"@ != "-h"@,
        "--height"@ != "--uncapped"@,
        "--height"@ != "--server"@,
        "--height"@ != "--width"@,
{
    reveal_strlit("--server");
    reveal_strlit("--help");
    reveal_strlit("-h");
    reveal_strlit("--uncapped");
    reveal_strlit("--width");
    reveal_strlit("--height");
    assert("--server"@.len() != "--help"@.len());
    assert("--server"@.len() != "-h"@.len());
    assert("--server"@[2] != "--uncapped"@[2]);
    assert("--width"@.len() != "--help"@.len());
    assert("--width"@.len() != "-h"@.len());
    assert("--width"@.len() != "--uncapped"@.len());
    assert("--width"@.len() != "--server"@.len());
    assert("--height"@[4] != "--help"@[4]);
    assert("--height"@.len() != "-h"@.len());
    assert("--height"@.len() != "--uncapped"@.len());
    assert("--height"@[2] != "--server"@[2]);
    assert("--height"@.len() != "--width"@.len());
}

/// `--server` takes any WebSocket URL: a value that starts with `ws://` or
/// `wss://` becomes the server and reading goes on after it; any other
/// value is refused.  So `--server URL` alone gives the defaults with that server.
pub proof fn lemma_server_option(args: Seq<Seq<char>>, i: int, o: (Seq<char>, u32, u32, bool), rest: Seq<char>)
    requires
        0 <= i,
        i + 1 < args.len(),
        args[i] == "--server"@,
    ensures
        args[i + 1] == "ws://"@ + rest || args[i + 1] == "wss://"@ + rest ==> options_from(args, i, o)
            == options_from(args, i + 2, (args[i + 1], o.1, o.2, o.3)),
        (args[i + 1] == "ws://"@ + rest || args[i + 1] == "wss://"@ + rest) && args.len() == i + 2
            ==> options_from(args, i, o) == Ok::<Option<(Seq<char>, u32, u32, bool)>, Seq<char>>(
            Some((args[i + 1], o.1, o.2, o.3)),
        ),
        has_prefix(args[i + 1], "ws://"@) || has_prefix(args[i + 1], "wss://"@) ==> options_from(args, i, o)
            == options_from(args, i + 2, (args[i + 1], o.1, o.2, o.3)),
        !has_prefix(args[i + 1], "ws://"@) && !has_prefix(args[i + 1], "wss://"@) ==> options_from(args, i, o)
            == Err::<Option<(Seq<char>, u32, u32, bool)>, Seq<char>>("--server must start with ws:// or wss://"@),
{
    lemma_option_names_differ();
    let v = args[i + 1];
    if v == "ws://"@ + rest {
        assert(v.subrange(0, "ws://"@.len() as int) =~= "ws://"@);
        assert(has_prefix(v, "ws://"@));
    }
    if v == "wss://"@ + rest {
        assert(v.subrange(0, "wss://"@.len() as int) =~= "wss://"@);
        assert(has_prefix(v, "wss://"@));
    }
}

/// Asking for help anywhere before an error shows the help; `--uncapped`
/// turns VSync off and reading goes on; an option that is not known is
/// refused by name.
pub proof fn lemma_flag_options(args: Seq<Seq<char>>, i: int, o: (Seq<char>, u32, u32, bool))
    requires
        0 <= i < args.len(),
    ensures
        args[i] == "--help"@ || args[i] == "-h"@ ==> options_from(args, i, o) == Ok::<
            Option<(Seq<char>, u32, u32, bool)>,
            Seq<char>,
        >(None),
        args[i] == "--uncapped"@ ==> options_from(args, i, o) == options_from(args, i + 1, (o.0, o.1, o.2, true)),
        args[i] != "--help"@ && args[i] != "-h"@ && args[i] != "--uncapped"@ && args[i] != "--server"@ && args[i]
            != "--width"@ && args[i] != "--height"@ ==> options_from(args, i, o) == Err::<
            Option<(Seq<char>, u32, u32, bool)>,
            Seq<char>,
        >("unknown option: "@ + args[i]),
        options_from(args, args.len() as int, o) == Ok::<Option<(Seq<char>, u32, u32, bool)>, Seq<char>>(Some(o)),
{
    lemma_option_names_differ();
    reveal_strlit("--uncapped");
    reveal_strlit("--help");
    reveal_strlit("-h");
    assert("--uncapped"@.len() != "--help"@.len());
    assert("--uncapped"@.len() != "-h"@.len());
}

/// `--width` and `--height` take a number of pixels from 64 to 16384 and
/// nothing else.
pub proof fn lemma_size_options(args: Seq<Seq<char>>, i: int, o: (Seq<char>, u32, u32, bool))
    requires
        0 <= i,
        i + 1 < args.len(),
    ensures
        args[i] == "--width"@ && (parsed_u32(args[i + 1]) matches Some(p) && 64 <= p <= 16384) ==> options_from(
            args,
            i,
            o,
        ) == options_from(args, i + 2, (o.0, parsed_u32(args[i + 1])->0, o.2, o.3)),
        args[i] == "--height"@ && (parsed_u32(args[i + 1]) matches Some(p) && 64 <= p <= 16384) ==> options_from(
            args,
            i,
            o,
        ) == options_from(args, i + 2, (o.0, o.1, parsed_u32(args[i + 1])->0, o.3)),
        (args[i] == "--width"@ || args[i] == "--height"@) && !(parsed_u32(args[i + 1]) matches Some(p) && 64 <= p
            <= 16384) ==> options_from(args, i, o) == Err::<Option<(Seq<char>, u32, u32, bool)>, Seq<char>>(
            args[i] + " must be between 64 and 16384 pixels"@,
        ),
{
    lemma_option_names_differ();
}

impl Options {
    /// The settings as plain values.
    pub open spec fn values(&self) -> (Seq<char>, u32, u32, bool) {
        (self.server@, self.width, self.height, self.uncapped)
    }

    /// Read the command-line arguments (without the program name).  `Ok(None)`
    /// asks for the help text.
    pub fn parse(args: &Vec<String>) -> (r: Result<Option<Self>, String>)
        ensures
            args@.len() == 2 && args@[0]@ == "--server"@ && (has_prefix(args@[1]@, "ws://"@) || has_prefix(
                args@[1]@,
                "wss://"@,
            )) ==> (r matches Ok(Some(o)) && o.server@ == args@[1]@ && o.width == 1280 && o.height == 720
                && !o.uncapped),
            ({
                let expected = options_from(args@.map_values(|a: String| a@), 0, default_options());
                match r {
                    Ok(Some(o)) => expected == Ok::<Option<(Seq<char>, u32, u32, bool)>, Seq<char>>(Some(o.values())),
                    Ok(None) => expected == Ok::<Option<(Seq<char>, u32, u32, bool)>, Seq<char>>(None),
                    Err(e) => expected == Err::<Option<(Seq<char>, u32, u32, bool)>, Seq<char>>(e@),
                }
            }),
    {
        let ghost words = args@.map_values(|a: String| a@);
        proof {
            if args@.len() == 2 {
                assert(words[0] == args@[0]@ && words[1] == args@[1]@);
                if words[0] == "--server"@ {
                    lemma_server_option(words, 0, default_options(), Seq::empty());
                }
            }
        }
        let mut options = Options { server: "ws://127.0.0.1:5000".to_owned(), width: 1280, height: 720, uncapped: false };
        let n = args.len();
        let mut i: usize = 0;
        while i < n
            invariant
                0 <= i <= n,
                n == args@.len(),
                words == args@.map_values(|a: String| a@),
                options_from(words, 0, default_options()) == options_from(words, i as int, options.values()),
                args@.len() == 2 && args@[0]@ == "--server"@ && (has_prefix(args@[1]@, "ws://"@) || has_prefix(
                    args@[1]@,
                    "wss://"@,
                )) ==> options_from(words, 0, default_options()) == Ok::<
                    Option<(Seq<char>, u32, u32, bool)>,
                    Seq<char>,
                >(Some((args@[1]@, 1280u32, 720u32, false))),
            decreases n - i,
        {
            let arg = args[i].as_str();
            assert(arg@ == words[i as int]);
            if same_text(arg, "--help") || same_text(arg, "-h") {
                return Ok(None);
            } else if same_text(arg, "--uncapped") {
                options.uncapped = true;
                i = i + 1;
            } else if same_text(arg, "--server") || same_text(arg, "--width") || same_text(arg, "--height") {
                if i + 1 >= n {
                    return Err(args[i].clone().concat(" requires a value"));
                }
                let value = args[i + 1].as_str();
                assert(value@ == words[i + 1]);
                if same_text(arg, "--server") {
                    if !starts_with(value, "ws://") && !starts_with(value, "wss://") {
                        return Err("--server must start with ws:// or wss://".to_owned());
                    }
                    options.server = args[i + 1].clone();
                } else {
                    let pixels = parse_u32(value);
                    let fits = match pixels {
                        Some(p) => 64 <= p && p <= 16384,
                        None => false,
                    };
                    if !fits {
                        return Err(args[i].clone().concat(" must be between 64 and 16384 pixels"));
                    }
                    let p = match pixels {
                        Some(p) => p,
                        None => 0,
                    };
                    if same_text(arg, "--width") {
                        options.width = p;
                    } else {
                        options.height = p;
                    }
                }
                i = i + 2;
            } else {
                return Err("unknown option: ".to_owned().concat(arg));
            }
        }
        Ok(Some(options))
    }
}

} // verus!
