//! Reads the sign-in paste: a raw Cookie header value, or a whole
//! "Copy as cURL" command whose cookie the parser extracts.
//!
//! Pastes fail early and with a named reason here, because the
//! failures they cause otherwise surface late and look like an empty
//! library: YouTube treats a session with missing cookies as signed
//! out while the SAPISID hash still passes.
use vstd::prelude::*;
use crate::text::{
    chars_of, eq_ignore_ascii_case, eq_ignore_case, find_char, find_char_index, is_whitespace,
    is_ws, join, join_strs, segments, split_on, starts_with_str, str_eq, str_views, string_views,
    trim, trim_str,
};

verus! {

/// The answer to a cURL paste that holds no cookie.
pub const NO_COOKIE_HEADER: &'static str =
    "The cURL paste carries no Cookie header. Copy the request as cURL again, from a signed-in music.youtube.com tab.";

/// The answer to a paste that holds the shortened display text.
pub const TRUNCATED_PASTE: &'static str =
    "The paste contains a truncation mark (…), so the tool copied the shortened display text. Right-click the request and use Copy as cURL instead.";

/// The text before the names of the missing cookies.
pub const MISSING_BEFORE: &'static str = "The paste misses the ";

/// The text after the names of the missing cookies.
pub const MISSING_AFTER: &'static str =
    " cookies. Right-click a signed-in music.youtube.com request and use Copy as cURL.";

/// The session cookies a signed-in request always carries, in the
/// order a refusal names them.
pub open spec fn session_cookie_names() -> Seq<Seq<char>> {
    seq!["SID"@, "SAPISID"@, "__Secure-3PAPISID"@, "__Secure-3PSID"@]
}

/// The name of a `name=value` pair: what stands before its first `=`,
/// once the pair is trimmed.
pub open spec fn cookie_name(pair: Seq<char>) -> Seq<char> {
    segments(trim(pair), '=')[0]
}

/// Some `;`-separated pair of `cookies` is named `name`.
pub open spec fn has_cookie_spec(cookies: Seq<char>, name: Seq<char>) -> bool {
    exists|i: int|
        0 <= i < segments(cookies, ';').len() && #[trigger] cookie_name(segments(cookies, ';')[i])
            == name
}

/// The names among `names` that `cookies` lacks, in their order.
pub open spec fn lacking(names: Seq<Seq<char>>, cookies: Seq<char>) -> Seq<Seq<char>>
    decreases names.len(),
{
    if names.len() == 0 {
        Seq::empty()
    } else {
        let rest = lacking(names.drop_last(), cookies);
        if has_cookie_spec(cookies, names.last()) {
            rest
        } else {
            rest.push(names.last())
        }
    }
}

/// The session cookies that `cookies` lacks.
pub open spec fn missing_spec(cookies: Seq<char>) -> Seq<Seq<char>> {
    lacking(session_cookie_names(), cookies)
}

/// Why a Cookie header value cannot sign in, if it cannot.
pub open spec fn validation_error(cookies: Seq<char>) -> Option<Seq<char>> {
    if cookies.contains('…') {
        Some(TRUNCATED_PASTE@)
    } else if missing_spec(cookies).len() > 0 {
        Some(MISSING_BEFORE@ + join(missing_spec(cookies), ", "@) + MISSING_AFTER@)
    } else {
        None
    }
}

/// One step of reading a shell command: the words closed so far, the
/// word being read, and the quote that is open.
pub open spec fn shell_step(
    state: (Seq<Seq<char>>, Seq<char>, Option<char>),
    c: char,
) -> (Seq<Seq<char>>, Seq<char>, Option<char>) {
    let (words, word, quote) = state;
    match quote {
        Some(open) => if c == open {
            (words, word, None)
        } else {
            (words, word.push(c), quote)
        },
        None => if c == '\'' || c == '"' {
            (words, word, Some(c))
        } else if is_ws(c) {
            (closed(words, word), Seq::empty(), None)
        } else {
            (words, word.push(c), None)
        },
    }
}

/// `words` with `word` added, unless `word` is empty.
pub open spec fn closed(words: Seq<Seq<char>>, word: Seq<char>) -> Seq<Seq<char>> {
    if word.len() == 0 {
        words
    } else {
        words.push(word)
    }
}

/// The state after reading all of `s`.
pub open spec fn shell_scan(s: Seq<char>) -> (Seq<Seq<char>>, Seq<char>, Option<char>)
    decreases s.len(),
{
    if s.len() == 0 {
        (Seq::empty(), Seq::empty(), None)
    } else {
        shell_step(shell_scan(s.drop_last()), s.last())
    }
}

/// The arguments of a shell command: whitespace separates, and single
/// or double quotes group; a quote left open runs to the end.
pub open spec fn shell_words(s: Seq<char>) -> Seq<Seq<char>> {
    closed(shell_scan(s).0, shell_scan(s).1)
}

/// The cookie that an argument carries, given the argument before it:
/// `-H 'Cookie: …'` (any case of the name) or `-b …` / `--cookie …`.
pub open spec fn pair_cookie(flag: Option<Seq<char>>, value: Seq<char>) -> Option<Seq<char>> {
    match flag {
        Some(f) => if f == "-H"@ {
            match find_char(value, ':') {
                Some(k) => if eq_ignore_case(value.take(k), "cookie"@) {
                    Some(trim(value.skip(k + 1)))
                } else {
                    None
                },
                None => None,
            }
        } else if f == "-b"@ || f == "--cookie"@ {
            Some(trim(value))
        } else {
            None
        },
        None => None,
    }
}

/// The first cookie that the arguments from `i` on carry.
pub open spec fn first_cookie(args: Seq<Seq<char>>, i: int) -> Option<Seq<char>>
    decreases args.len() - i,
{
    if i < 0 || i >= args.len() {
        None
    } else {
        let flag = if i == 0 {
            None
        } else {
            Some(args[i - 1])
        };
        match pair_cookie(flag, args[i]) {
            Some(c) => Some(c),
            None => first_cookie(args, i + 1),
        }
    }
}

/// The cookie of a "Copy as cURL" command.
pub open spec fn curl_cookie(curl: Seq<char>) -> Option<Seq<char>> {
    first_cookie(shell_words(curl), 0)
}

/// What a paste yields: the validated Cookie header value, or the
/// reason it cannot sign in.
pub open spec fn paste_outcome(paste: Seq<char>) -> Result<Seq<char>, Seq<char>> {
    let text = trim(paste);
    let picked = if "curl "@.is_prefix_of(text) {
        match curl_cookie(text) {
            Some(c) => Ok(c),
            None => Err(NO_COOKIE_HEADER@),
        }
    } else {
        Ok(text)
    };
    match picked {
        Err(e) => Err(e),
        Ok(c) => match validation_error(c) {
            Some(e) => Err(e),
            None => Ok(c),
        },
    }
}

/// The Cookie header value from the paste, validated.
pub fn cookies_from_paste(paste: &str) -> (r: Result<String, String>)
    ensures
        match r {
            Ok(c) => paste_outcome(paste@) == Ok::<Seq<char>, Seq<char>>(c@),
            Err(e) => paste_outcome(paste@) == Err::<Seq<char>, Seq<char>>(e@),
        },
{
    let text = trim_str(paste);
    let cookies = if starts_with_str(text, "curl ") {
        match curl_cookie_header(text) {
            Some(c) => c,
            None => {
                return Err(NO_COOKIE_HEADER.to_owned());
            },
        }
    } else {
        text.to_owned()
    };
    match validate(cookies.as_str()) {
        Ok(()) => Ok(cookies),
        Err(e) => Err(e),
    }
}

/// Checks a Cookie header value: no truncation mark, and every session cookie.
pub fn validate(cookies: &str) -> (r: Result<(), String>)
    ensures
        match r {
            Ok(_) => validation_error(cookies@) is None,
            Err(e) => validation_error(cookies@) == Some(e@),
        },
{
    let chars = chars_of(cookies);
    if find_char_index(&chars, '…').is_some() {
        proof {
            lemma_find_char_contains(cookies@, '…');
        }
        return Err(TRUNCATED_PASTE.to_owned());
    }
    proof {
        lemma_find_char_contains(cookies@, '…');
    }
    let missing = missing_session_cookies(cookies);
    if missing.len() > 0 {
        let mut message = MISSING_BEFORE.to_owned();
        let names = join_strs(&missing, ", ");
        message.append(names.as_str());
        message.append(MISSING_AFTER);
        return Err(message);
    }
    Ok(())
}

/// `find_char` finds `d` exactly when `s` contains it.
pub proof fn lemma_find_char_contains(s: Seq<char>, d: char)
    ensures
        find_char(s, d) is Some <==> s.contains(d),
        match find_char(s, d) {
            Some(k) => 0 <= k < s.len() && s[k] == d,
            None => true,
        },
    decreases s.len(),
{
    if s.len() > 0 {
        lemma_find_char_contains(s.drop_last(), d);
        if s.drop_last().contains(d) {
            let k = choose|k: int| 0 <= k < s.drop_last().len() && s.drop_last()[k] == d;
            assert(s[k] == d);
        }
        if s.contains(d) && s.last() != d {
            let k = choose|k: int| 0 <= k < s.len() && s[k] == d;
            assert(s.drop_last()[k] == d);
        }
    }
}

/// The session cookies that `cookies` lacks.
pub fn missing_session_cookies(cookies: &str) -> (r: Vec<&'static str>)
    ensures
        str_views(r@) == missing_spec(cookies@),
{
    let names: Vec<&'static str> = vec!["SID", "SAPISID", "__Secure-3PAPISID", "__Secure-3PSID"];
    assert(str_views(names@) =~= session_cookie_names());
    let mut missing: Vec<&'static str> = Vec::new();
    let mut i: usize = 0;
    while i < names.len()
        invariant
            i <= names@.len(),
            str_views(names@) == session_cookie_names(),
            str_views(missing@) == lacking(str_views(names@.take(i as int)), cookies@),
        decreases names@.len() - i,
    {
        proof {
            assert(str_views(names@.take(i + 1)).drop_last() =~= str_views(names@.take(i as int)));
            assert(str_views(names@.take(i + 1)).last() == names@[i as int]@);
        }
        let name = names[i];
        if !has_cookie(cookies, name) {
            let ghost before = missing@;
            missing.push(name);
            proof {
                assert(str_views(missing@) =~= str_views(before).push(name@));
            }
        }
        i = i + 1;
    }
    proof {
        assert(names@.take(names@.len() as int) =~= names@);
    }
    missing
}

/// Whether some `;`-separated pair of `cookies` is named `name`.
pub fn has_cookie(cookies: &str, name: &str) -> (r: bool)
    ensures
        r == has_cookie_spec(cookies@, name@),
{
    let pairs = split_on(cookies, ';');
    let mut i: usize = 0;
    while i < pairs.len()
        invariant
            i <= pairs@.len(),
            str_views(pairs@) == segments(cookies@, ';'),
            forall|j: int| 0 <= j < i ==> cookie_name(#[trigger] segments(cookies@, ';')[j]) != name@,
        decreases pairs@.len() - i,
    {
        let pair = trim_str(pairs[i]);
        let parts = split_on(pair, '=');
        proof {
            assert(segments(pair@, '=').len() >= 1);
            assert(pairs@[i as int]@ == segments(cookies@, ';')[i as int]);
        }
        if str_eq(parts[0], name) {
            proof {
                assert(parts@[0]@ == segments(pair@, '=')[0]);
                assert(cookie_name(segments(cookies@, ';')[i as int]) == name@);
            }
            return true;
        }
        i = i + 1;
    }
    false
}

/// The cookie value inside a "Copy as cURL" command.
pub fn curl_cookie_header(curl: &str) -> (r: Option<String>)
    ensures
        match r {
            Some(c) => curl_cookie(curl@) == Some(c@),
            None => curl_cookie(curl@) is None,
        },
{
    let arguments = shell_arguments(curl);
    let ghost args = string_views(arguments@);
    let mut i: usize = 0;
    while i < arguments.len()
        invariant
            i <= arguments@.len(),
            args == string_views(arguments@),
            args == shell_words(curl@),
            first_cookie(args, 0) == first_cookie(args, i as int),
        decreases arguments@.len() - i,
    {
        let previous: Option<&String> = if i == 0 {
            None
        } else {
            Some(&arguments[i - 1])
        };
        let found = cookie_of_argument_pair(previous, arguments[i].as_str());
        proof {
            let flag = if i == 0 {
                None
            } else {
                Some(args[i - 1])
            };
            assert(match previous {
                Some(p) => flag == Some(p@),
                None => flag is None,
            });
        }
        if found.is_some() {
            return found;
        }
        i = i + 1;
    }
    None
}

/// The cookie that `value` carries after the argument `flag`.
pub fn cookie_of_argument_pair(flag: Option<&String>, value: &str) -> (r: Option<String>)
    ensures
        match r {
            Some(c) => pair_cookie(opt_view(flag), value@) == Some(c@),
            None => pair_cookie(opt_view(flag), value@) is None,
        },
{
    match flag {
        None => None,
        Some(f) => {
            let f = f.as_str();
            if str_eq(f, "-H") {
                let chars = chars_of(value);
                let len = chars.len();
                match find_char_index(&chars, ':') {
                    None => None,
                    Some(k) => {
                        proof {
                            lemma_find_char_contains(value@, ':');
                            assert(chars@ == value@);
                            assert(k < chars@.len());
                        }
                        let name = value.substring_char(0, k);
                        let rest = value.substring_char(k + 1, len);
                        proof {
                            assert(name@ =~= value@.take(k as int));
                            assert(rest@ =~= value@.skip(k + 1));
                        }
                        if eq_ignore_ascii_case(name, "cookie") {
                            Some(trim_str(rest).to_owned())
                        } else {
                            None
                        }
                    },
                }
            } else if str_eq(f, "-b") || str_eq(f, "--cookie") {
                Some(trim_str(value).to_owned())
            } else {
                None
            }
        },
    }
}

/// The view of an optional string reference.
pub open spec fn opt_view(o: Option<&String>) -> Option<Seq<char>> {
    match o {
        Some(s) => Some(s@),
        None => None,
    }
}

/// The arguments of a shell command: whitespace separates, and single
/// or double quotes group. Escapes stay simple on purpose; the
/// browsers' cURL output uses plain quoting for headers.
pub fn shell_arguments(command: &str) -> (r: Vec<String>)
    ensures
        string_views(r@) == shell_words(command@),
{
    let chars = chars_of(command);
    let n = chars.len();
    let mut arguments: Vec<String> = Vec::new();
    let mut current = String::new();
    let mut quote: Option<char> = None;
    let mut run_start: usize = 0;
    let mut i: usize = 0;
    while i < n
        invariant
            run_start <= i <= n,
            n == command@.len(),
            chars@ == command@,
            shell_scan(command@.take(i as int)) == (
                string_views(arguments@),
                current@ + command@.subrange(run_start as int, i as int),
                quote,
            ),
        decreases n - i,
    {
        let c = chars[i];
        proof {
            assert(command@.take(i + 1).drop_last() =~= command@.take(i as int));
            assert(command@.take(i + 1).last() == c);
        }
        let kept = match quote {
            Some(open) => c != open,
            None => !(c == '\'' || c == '"') && !is_whitespace(c),
        };
        if kept {
            proof {
                assert(current@ + command@.subrange(run_start as int, i + 1) =~= (current@
                    + command@.subrange(run_start as int, i as int)).push(c));
            }
        } else {
            let run = command.substring_char(run_start, i);
            current.append(run);
            match quote {
                Some(_) => {
                    quote = None;
                },
                None => {
                    if c == '\'' || c == '"' {
                        quote = Some(c);
                    } else {
                        flush(&mut arguments, &mut current);
                    }
                },
            }
            run_start = i + 1;
            proof {
                assert(command@.subrange(run_start as int, i + 1) =~= Seq::<char>::empty());
                assert(current@ + command@.subrange(run_start as int, i + 1) =~= current@);
            }
        }
        i = i + 1;
    }
    let run = command.substring_char(run_start, n);
    current.append(run);
    flush(&mut arguments, &mut current);
    proof {
        assert(command@.take(n as int) =~= command@);
    }
    arguments
}

/// Closes the word being read: adds it to `arguments` unless it is empty.
pub fn flush(arguments: &mut Vec<String>, current: &mut String)
    ensures
        string_views(final(arguments)@) == closed(string_views(old(arguments)@), old(current)@),
        final(current)@ == Seq::<char>::empty(),
{
    if !current.as_str().is_empty() {
        let mut word = String::new();
        std::mem::swap(&mut word, current);
        let ghost before = arguments@;
        arguments.push(word);
        proof {
            assert(string_views(arguments@) =~= string_views(before).push(word@));
        }
    }
}

/// A paste that is accepted yields a Cookie header that signs in:
/// it holds no truncation mark and every session cookie. Every other
/// paste is refused with a reason.
pub proof fn law_accepted_paste_is_complete(paste: Seq<char>)
    ensures
        paste_outcome(paste) matches Ok(c) ==> !c.contains('…') && missing_spec(c).len() == 0,
        paste_outcome(paste) matches Err(e) ==> e.len() > 0,
{
    reveal_strlit("The cURL paste carries no Cookie header. Copy the request as cURL again, from a signed-in music.youtube.com tab.");
    reveal_strlit("The paste contains a truncation mark (…), so the tool copied the shortened display text. Right-click the request and use Copy as cURL instead.");
    reveal_strlit("The paste misses the ");
}

/// The argument-level flags that can carry a cookie.
pub open spec fn cookie_flag(word: Seq<char>) -> bool {
    word == "-H"@ || word == "-b"@ || word == "--cookie"@
}

/// `-b` and `--cookie` read the next argument alike: the cookie list,
/// trimmed, whatever it holds.
pub proof fn law_long_and_short_cookie_flags_agree(value: Seq<char>)
    ensures
        pair_cookie(Some("--cookie"@), value) == Some(trim(value)),
        pair_cookie(Some("-b"@), value) == Some(trim(value)),
        pair_cookie(None, value) is None,
{
    reveal_strlit("-H");
    reveal_strlit("-b");
    reveal_strlit("--cookie");
    assert("--cookie"@.len() != "-H"@.len());
    assert("--cookie"@ != "-H"@);
    assert("-b"@[1] != "-H"@[1]);
    assert("-b"@ != "-H"@);
}

/// In a cURL command's arguments, the first `-b` or `--cookie` flag
/// gives the cookie: when no argument before it is a cookie-carrying
/// flag, the cookie read is the argument after it, trimmed.
pub proof fn law_first_cookie_flag_gives_the_cookie(args: Seq<Seq<char>>, i: int)
    requires
        1 <= i < args.len(),
        args[i - 1] == "--cookie"@ || args[i - 1] == "-b"@,
        forall|j: int| 0 <= j < i - 1 ==> !cookie_flag(#[trigger] args[j]),
    ensures
        first_cookie(args, 0) == Some(trim(args[i])),
{
    lemma_first_cookie_from(args, i, 0);
}

proof fn lemma_first_cookie_from(args: Seq<Seq<char>>, i: int, j: int)
    requires
        1 <= i < args.len(),
        0 <= j <= i,
        args[i - 1] == "--cookie"@ || args[i - 1] == "-b"@,
        forall|k: int| 0 <= k < i - 1 ==> !cookie_flag(#[trigger] args[k]),
    ensures
        first_cookie(args, j) == Some(trim(args[i])),
    decreases i - j,
{
    law_long_and_short_cookie_flags_agree(args[i]);
    if j < i {
        lemma_first_cookie_from(args, i, j + 1);
        if j > 0 {
            assert(!cookie_flag(args[j - 1]));
        }
    }
}

/// A pasted cURL command whose first cookie flag is `-b` or
/// `--cookie` at argument `i - 1` signs in with the argument after it,
/// trimmed, exactly when that list passes validation.
pub proof fn law_curl_paste_takes_the_cookie_argument(paste: Seq<char>, i: int)
    requires
        "curl "@.is_prefix_of(trim(paste)),
        1 <= i < shell_words(trim(paste)).len(),
        shell_words(trim(paste))[i - 1] == "--cookie"@ || shell_words(trim(paste))[i - 1] == "-b"@,
        forall|j: int| 0 <= j < i - 1 ==> !cookie_flag(#[trigger] shell_words(trim(paste))[j]),
    ensures
        paste_outcome(paste) == match validation_error(trim(shell_words(trim(paste))[i])) {
            Some(e) => Err(e),
            None => Ok(trim(shell_words(trim(paste))[i])),
        },
{
    law_first_cookie_flag_gives_the_cookie(shell_words(trim(paste)), i);
}

} // verus!
