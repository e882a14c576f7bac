//! What the helper makes of gocryptfs: the master key it prints at creation,
//! the arguments and standard input each operation is run with, the error
//! text surfaced when it fails (with secrets scrubbed), and the unmount
//! commands tried when locking.

use vstd::prelude::*;
use vstd::arithmetic::div_mod::lemma_fundamental_div_mod_converse;
use crate::text::{
    chars_of, find_exec, find_from, lemma_find_from, occurs_at, is_alphabetic, is_ascii_alphabetic, is_ascii_hex_digit,
    is_hex_digit, is_white_space, is_whitespace, slice_chars, string_of, trim_end_char,
    trim_end_char_chars, replace_all, replace_all_chars, trim, trim_end, trim_chars,
    trim_end_chars, append_chars, decimal, decimal_of_i32, decimal_of_usize, join, join_strings,
    views, push_char,
};
use vstd::string::StringExecFns;

verus! {

/// The escape character that starts an ANSI sequence.
pub open spec fn escape() -> char {
    '\u{1b}'
}

/// The index of the first ASCII letter at or after `j`, or `s.len()`.
pub open spec fn csi_end(s: Seq<char>, j: int) -> int
    decreases s.len() - j,
{
    if j < 0 || j >= s.len() {
        s.len() as int
    } else if is_ascii_alphabetic(s[j]) {
        j
    } else {
        csi_end(s, j + 1)
    }
}

pub proof fn lemma_csi_end_bounds(s: Seq<char>, j: int)
    requires
        0 <= j <= s.len(),
    ensures
        j <= csi_end(s, j) <= s.len(),
    decreases s.len() - j,
{
    if j < s.len() && !is_ascii_alphabetic(s[j]) {
        lemma_csi_end_bounds(s, j + 1);
    }
}

/// The characters of `s` from index `i` on, without ANSI control sequences:
/// an escape followed by `[` starts a sequence that runs through the next
/// ASCII letter (or to the end of the text); any other escape character is
/// dropped alone.
pub open spec fn strip_from(s: Seq<char>, i: int) -> Seq<char>
    decreases s.len() + 1 - i,
{
    if i < 0 || i >= s.len() {
        Seq::empty()
    } else if s[i] != escape() {
        seq![s[i]] + strip_from(s, i + 1)
    } else if i + 1 < s.len() && s[i + 1] == '[' {
        proof {
            lemma_csi_end_bounds(s, i + 2);
        }
        strip_from(s, csi_end(s, i + 2) + 1)
    } else {
        strip_from(s, i + 1)
    }
}

/// `s` without ANSI control sequences.
pub open spec fn strip_ansi_text(s: Seq<char>) -> Seq<char> {
    strip_from(s, 0)
}

proof fn lemma_strip_from_has_no_escape(s: Seq<char>, i: int)
    ensures
        !strip_from(s, i).contains(escape()),
    decreases s.len() + 1 - i,
{
    if i < 0 || i >= s.len() {
    } else if s[i] != escape() {
        lemma_strip_from_has_no_escape(s, i + 1);
        let rest = strip_from(s, i + 1);
        if (seq![s[i]] + rest).contains(escape()) {
            let k = choose|k: int| 0 <= k < (seq![s[i]] + rest).len() && (seq![s[i]] + rest)[k] == escape();
            assert(k != 0);
            assert(rest[k - 1] == escape());
        }
    } else if i + 1 < s.len() && s[i + 1] == '[' {
        lemma_csi_end_bounds(s, i + 2);
        lemma_strip_from_has_no_escape(s, csi_end(s, i + 2) + 1);
    } else {
        lemma_strip_from_has_no_escape(s, i + 1);
    }
}

/// Text with its ANSI sequences stripped holds no escape character at all.
pub proof fn lemma_stripped_text_has_no_escape(s: Seq<char>)
    ensures
        !strip_ansi_text(s).contains(escape()),
{
    lemma_strip_from_has_no_escape(s, 0);
}

fn strip_ansi_chars(v: &Vec<char>) -> (r: Vec<char>)
    ensures
        r@ == strip_ansi_text(v@),
{
    let n = v.len();
    let mut out: Vec<char> = Vec::new();
    let mut i: usize = 0;
    while i < n
        invariant
            n == v.len(),
            i <= n,
            out@ + strip_from(v@, i as int) == strip_ansi_text(v@),
        decreases n - i,
    {
        let c = v[i];
        if c != '\u{1b}' {
            out.push(c);
            i += 1;
            assert(seq![c] + strip_from(v@, i as int) == strip_from(v@, i - 1));
            assert(out@ + strip_from(v@, i as int) =~= strip_ansi_text(v@));
        } else if i + 1 < n && v[i + 1] == '[' {
            let mut j: usize = i + 2;
            while j < n && !is_alphabetic(v[j])
                invariant
                    n == v.len(),
                    i + 2 <= j <= n,
                    csi_end(v@, i + 2) == csi_end(v@, j as int),
                decreases n - j,
            {
                j += 1;
            }
            proof {
                lemma_csi_end_bounds(v@, i + 2);
                assert(strip_from(v@, i as int) == strip_from(v@, j + 1));
                assert(strip_from(v@, n + 1) =~= strip_from(v@, n as int));
            }
            if j < n {
                i = j + 1;
            } else {
                i = n;
            }
        } else {
            assert(strip_from(v@, i as int) == strip_from(v@, i + 1));
            i += 1;
        }
    }
    assert(out@ + Seq::<char>::empty() =~= out@);
    out
}

/// Removes ANSI control sequences (`ESC [ ... letter`) and lone escape
/// characters from terminal output.
pub fn strip_ansi(text: &str) -> (r: String)
    ensures
        r@ == strip_ansi_text(text@),
{
    let v = chars_of(text);
    let out = strip_ansi_chars(&v);
    string_of(&out)
}

/// Whether `t` is a sequence of groups of `width` hex digits, each pair of
/// groups separated by one `-`.
pub open spec fn grouped(t: Seq<char>, width: int) -> bool {
    &&& width > 0
    &&& (t.len() + 1) as int % (width + 1) == 0
    &&& forall|i: int|
        0 <= i < t.len() ==> if i % (width + 1) == width {
            t[i] == '-'
        } else {
            is_ascii_hex_digit(#[trigger] t[i])
        }
}

/// The number of groups in a grouped token.
pub open spec fn group_count(t: Seq<char>, width: int) -> int {
    (t.len() + 1) as int / (width + 1)
}

/// A gocryptfs master key as printed: at least four `-`-separated groups,
/// all of four or all of eight hex digits, with at least 52 hex digits.
pub open spec fn is_master_key(t: Seq<char>) -> bool {
    ||| grouped(t, 4) && group_count(t, 4) >= 4 && group_count(t, 4) * 4 >= 52
    ||| grouped(t, 8) && group_count(t, 8) >= 4 && group_count(t, 8) * 8 >= 52
}

/// Checks the group structure of `t` for groups of `width` hex digits.
fn grouped_exec(t: &Vec<char>, width: usize) -> (r: Option<usize>)
    requires
        width == 4 || width == 8,
    ensures
        match r {
            Some(g) => grouped(t@, width as int) && g == group_count(t@, width as int),
            None => !grouped(t@, width as int),
        },
{
    let n = t.len();
    let mut k: usize = 0;
    let mut q: usize = 0;
    let ghost w1 = width + 1;
    for i in 0..n
        invariant
            n == t.len(),
            width == 4 || width == 8,
            w1 == width + 1,
            k <= width,
            q <= i,
            i == q * w1 + k,
            forall|j: int|
                0 <= j < i ==> if j % w1 == width {
                    t@[j] == '-'
                } else {
                    is_ascii_hex_digit(#[trigger] t@[j])
                },
    {
        proof {
            lemma_fundamental_div_mod_converse(i as int, w1, q as int, k as int);
        }
        let ghost q0 = q as int;
        if k == width {
            if t[i] != '-' {
                return None;
            }
            k = 0;
            q = q + 1;
            assert(i + 1 == (q0 + 1) * w1) by (nonlinear_arith)
                requires
                    i == q0 * w1 + width,
                    w1 == width + 1,
            ;
        } else {
            if !is_hex_digit(t[i]) {
                return None;
            }
            k = k + 1;
        }
    }
    if k != width {
        proof {
            lemma_fundamental_div_mod_converse((n + 1) as int, w1, q as int, (k + 1) as int);
        }
        return None;
    }
    proof {
        assert(q + 1 <= n) by (nonlinear_arith)
            requires
                n == q * w1 + k,
                k == width,
                w1 == width + 1,
                width >= 4,
        ;
        assert(n + 1 == (q + 1) * w1) by (nonlinear_arith)
            requires
                n == q * w1 + k,
                k == width,
                w1 == width + 1,
        ;
        lemma_fundamental_div_mod_converse((n + 1) as int, w1, (q + 1) as int, 0);
    }
    Some(q + 1)
}

/// Whether `token` has the shape of a gocryptfs master key.
fn is_master_key_token(t: &Vec<char>) -> (r: bool)
    ensures
        r == is_master_key(t@),
{
    let dash = vec!['-'];
    assert(dash@ =~= seq!['-']);
    let found = find_exec(t, &dash, 0);
    proof {
        lemma_find_from(t@, seq!['-'], 0);
    }
    let width = match found {
        Some(p) => p,
        None => t.len(),
    };
    proof {
        // The first dash is where the first group ends, so only one width can fit.
        assert forall|k: int| 0 <= k < width && k < t.len() implies t@[k] != '-' by {
            assert(!occurs_at(t@, seq!['-'], k));
            if t@[k] == '-' {
                assert(t@.subrange(k, k + 1) =~= seq!['-']);
            }
        }
        if width < t.len() {
            assert(occurs_at(t@, seq!['-'], width as int));
            assert(t@.subrange(width as int, width + 1)[0] == t@[width as int]);
        }
        if grouped(t@, 4) && group_count(t@, 4) >= 4 {
            assert(t@[4] == '-');
            assert(4int % 5 == 4);
            assert(0int % 5 == 0 && 1int % 5 == 1 && 2int % 5 == 2 && 3int % 5 == 3);
            assert(is_ascii_hex_digit(t@[0]) && is_ascii_hex_digit(t@[1]) && is_ascii_hex_digit(t@[2])
                && is_ascii_hex_digit(t@[3]));
        }
        if grouped(t@, 8) && group_count(t@, 8) >= 4 {
            assert(t@[8] == '-');
            assert(0int % 9 == 0 && 1int % 9 == 1 && 2int % 9 == 2 && 3int % 9 == 3);
            assert(4int % 9 == 4 && 5int % 9 == 5 && 6int % 9 == 6 && 7int % 9 == 7);
            assert(is_ascii_hex_digit(t@[0]) && is_ascii_hex_digit(t@[1]) && is_ascii_hex_digit(t@[2])
                && is_ascii_hex_digit(t@[3]));
            assert(is_ascii_hex_digit(t@[4]) && is_ascii_hex_digit(t@[5]) && is_ascii_hex_digit(t@[6])
                && is_ascii_hex_digit(t@[7]));
        }
    }
    if width != 4 && width != 8 {
        return false;
    }
    match grouped_exec(t, width) {
        None => {
            proof {
                if width == 4 {
                    assert(4int % 9 == 4);
                } else {
                    assert(4int % 5 == 4);
                }
            }
            false
        },
        Some(g) => {
            if width == 4 {
                proof {
                    assert(4int % 9 == 4);
                }
                g >= 13
            } else {
                proof {
                    assert(4int % 5 == 4);
                }
                g >= 7
            }
        },
    }
}

/// The text gocryptfs prints before the master key.
pub open spec fn master_key_marker() -> Seq<char> {
    seq!['m', 'a', 's', 't', 'e', 'r', ' ', 'k', 'e', 'y']
}

/// `s` with every white-space character removed.
pub open spec fn without_white_space(s: Seq<char>) -> Seq<char>
    decreases s.len(),
{
    if s.len() == 0 {
        s
    } else if is_white_space(s.last()) {
        without_white_space(s.drop_last())
    } else {
        without_white_space(s.drop_last()).push(s.last())
    }
}

/// The index of the first hex digit at or after `j`, or `s.len()`.
pub open spec fn first_hex_from(s: Seq<char>, j: int) -> int
    decreases s.len() - j,
{
    if j < 0 || j >= s.len() {
        s.len() as int
    } else if is_ascii_hex_digit(s[j]) {
        j
    } else {
        first_hex_from(s, j + 1)
    }
}

/// The index of the first character at or after `j` that is neither a hex
/// digit nor `-`, or `s.len()`.
pub open spec fn key_end_from(s: Seq<char>, j: int) -> int
    decreases s.len() - j,
{
    if j < 0 || j >= s.len() {
        s.len() as int
    } else if !is_ascii_hex_digit(s[j]) && s[j] != '-' {
        j
    } else {
        key_end_from(s, j + 1)
    }
}

/// The token that follows the first "master key" in the output once ANSI
/// sequences and white space are removed: the run of hex digits and dashes
/// starting at the first hex digit, without trailing dashes.
pub open spec fn master_key_candidate(output: Seq<char>) -> Option<Seq<char>> {
    let cleaned = strip_ansi_text(output);
    let m = find_from(cleaned, master_key_marker(), 0);
    if m < 0 {
        None
    } else {
        let compact = without_white_space(cleaned.skip(m + master_key_marker().len()));
        let start = first_hex_from(compact, 0);
        if start >= compact.len() {
            None
        } else {
            Some(trim_end_char(compact.subrange(start, key_end_from(compact, start)), '-'))
        }
    }
}

/// The master key printed in gocryptfs output, if the candidate token has the
/// shape of one.
pub open spec fn master_key_in(output: Seq<char>) -> Option<Seq<char>> {
    match master_key_candidate(output) {
        Some(t) => if is_master_key(t) {
            Some(t)
        } else {
            None
        },
        None => None,
    }
}

fn without_white_space_chars(v: &Vec<char>) -> (r: Vec<char>)
    ensures
        r@ == without_white_space(v@),
{
    let n = v.len();
    let mut out: Vec<char> = Vec::new();
    assert(v@.take(0) =~= Seq::<char>::empty());
    for i in 0..n
        invariant
            n == v.len(),
            out@ == without_white_space(v@.take(i as int)),
    {
        assert(v@.take(i + 1).drop_last() =~= v@.take(i as int));
        if !is_whitespace(v[i]) {
            out.push(v[i]);
        }
    }
    assert(v@.take(n as int) =~= v@);
    out
}

/// Finds the master key in the output of `gocryptfs -init`.
pub fn extract_master_key(output: &str) -> (r: Option<String>)
    ensures
        match r {
            Some(k) => master_key_in(output@) == Some(k@),
            None => master_key_in(output@) is None,
        },
{
    let raw = chars_of(output);
    let cleaned = strip_ansi_chars(&raw);
    let marker = vec!['m', 'a', 's', 't', 'e', 'r', ' ', 'k', 'e', 'y'];
    assert(marker@ =~= master_key_marker());
    let m = match find_exec(&cleaned, &marker, 0) {
        Some(m) => m,
        None => return None,
    };
    proof {
        lemma_find_from(cleaned@, master_key_marker(), 0);
    }
    let after = slice_chars(&cleaned, m + 10, cleaned.len());
    let compact = without_white_space_chars(&after);
    let n = compact.len();
    let mut start: usize = 0;
    while start < n && !is_hex_digit(compact[start])
        invariant
            n == compact.len(),
            start <= n,
            first_hex_from(compact@, 0) == first_hex_from(compact@, start as int),
        decreases n - start,
    {
        start += 1;
    }
    if start >= n {
        return None;
    }
    let mut end: usize = start;
    while end < n && (is_hex_digit(compact[end]) || compact[end] == '-')
        invariant
            n == compact.len(),
            start <= end <= n,
            key_end_from(compact@, start as int) == key_end_from(compact@, end as int),
        decreases n - end,
    {
        end += 1;
    }
    let span = slice_chars(&compact, start, end);
    let token = trim_end_char_chars(&span, '-');
    if is_master_key_token(&token) {
        Some(string_of(&token))
    } else {
        None
    }
}

/// `message` with every occurrence of a non-empty `secret` replaced by `***`.
pub open spec fn redacted(message: Seq<char>, secret: Seq<char>) -> Seq<char> {
    if secret.len() == 0 {
        message
    } else {
        replace_all(message, secret, seq!['*', '*', '*'])
    }
}

proof fn lemma_replaced_prefix(t: Seq<char>, pat: Seq<char>, k: int)
    requires
        pat.len() > 0,
        0 <= k <= replace_all(t, pat, seq!['*', '*', '*']).len(),
    ensures
        (exists|j: int| 0 <= j < k && replace_all(t, pat, seq!['*', '*', '*'])[j] == '*') || (k
            <= t.len() && replace_all(t, pat, seq!['*', '*', '*']).take(k) == t.take(k)),
    decreases t.len(),
{
    let stars = seq!['*', '*', '*'];
    let out = replace_all(t, pat, stars);
    if k == 0 {
        assert(out.take(0) =~= t.take(0));
    } else if t.len() == 0 {
    } else if occurs_at(t, pat, 0) {
        assert(out[0] == '*');
    } else {
        let rest = replace_all(t.skip(1), pat, stars);
        assert(out == seq![t[0]] + rest);
        lemma_replaced_prefix(t.skip(1), pat, k - 1);
        if exists|j: int| 0 <= j < k - 1 && rest[j] == '*' {
            let j = choose|j: int| 0 <= j < k - 1 && rest[j] == '*';
            assert(out[j + 1] == '*');
        } else {
            assert(out.take(k) =~= seq![t[0]] + rest.take(k - 1));
            assert(t.take(k) =~= seq![t[0]] + t.skip(1).take(k - 1));
        }
    }
}

/// A secret without `*` in it never occurs in a message after its redaction.
pub proof fn lemma_redaction_hides_secret(message: Seq<char>, secret: Seq<char>)
    requires
        secret.len() > 0,
        !secret.contains('*'),
    ensures
        forall|i: int| !occurs_at(redacted(message, secret), secret, i),
    decreases message.len(),
{
    let stars = seq!['*', '*', '*'];
    let out = replace_all(message, secret, stars);
    if message.len() == 0 {
        assert forall|i: int| !occurs_at(redacted(message, secret), secret, i) by {
        }
    } else if occurs_at(message, secret, 0) {
        let rest = replace_all(message.skip(secret.len() as int), secret, stars);
        assert(out == stars + rest);
        lemma_redaction_hides_secret(message.skip(secret.len() as int), secret);
        assert(redacted(message.skip(secret.len() as int), secret) == rest);
        assert(redacted(message, secret) == out);
        assert forall|i: int| !occurs_at(out, secret, i) by {
            if occurs_at(out, secret, i) {
                if i < 3 {
                    assert(out.subrange(i, i + secret.len())[0] == out[i]);
                    assert(secret[0] == '*');
                    assert(secret.contains('*'));
                } else {
                    assert(out.subrange(i, i + secret.len()) =~= rest.subrange(
                        i - 3,
                        i - 3 + secret.len(),
                    ));
                    assert(occurs_at(rest, secret, i - 3));
                    assert(!occurs_at(redacted(message.skip(secret.len() as int), secret), secret, i - 3));
                }
                assert(false);
            }
        }
    } else {
        let rest = replace_all(message.skip(1), secret, stars);
        assert(out == seq![message[0]] + rest);
        lemma_redaction_hides_secret(message.skip(1), secret);
        assert(redacted(message.skip(1), secret) == rest);
        assert(redacted(message, secret) == out);
        assert forall|i: int| !occurs_at(out, secret, i) by {
            if occurs_at(out, secret, i) {
                if i >= 1 {
                    assert(out.subrange(i, i + secret.len()) =~= rest.subrange(
                        i - 1,
                        i - 1 + secret.len(),
                    ));
                    assert(occurs_at(rest, secret, i - 1));
                    assert(!occurs_at(redacted(message.skip(1), secret), secret, i - 1));
                    assert(false);
                } else {
                    lemma_replaced_prefix(message.skip(1), secret, secret.len() - 1);
                    if exists|j: int| 0 <= j < secret.len() - 1 && rest[j] == '*' {
                        let j = choose|j: int| 0 <= j < secret.len() - 1 && rest[j] == '*';
                        assert(out.subrange(0, secret.len() as int)[j + 1] == out[j + 1]);
                        assert(secret[j + 1] == '*');
                        assert(secret.contains('*'));
                    } else {
                        assert(out.subrange(0, secret.len() as int) =~= seq![message[0]] + rest.take(
                            secret.len() - 1,
                        ));
                        assert(message.subrange(0, secret.len() as int) =~= seq![message[0]]
                            + message.skip(1).take(secret.len() - 1));
                        assert(occurs_at(message, secret, 0));
                    }
                    assert(false);
                }
            }
        }
    }
}

/// Scrubs `secret` from an error message before it is surfaced (the pseudo
/// terminal used at creation echoes typed input back).
pub fn redact_secret(message: &str, secret: &str) -> (r: String)
    ensures
        r@ == redacted(message@, secret@),
{
    let m = chars_of(message);
    let s = chars_of(secret);
    if s.len() == 0 {
        return string_of(&m);
    }
    let stars = vec!['*', '*', '*'];
    assert(stars@ =~= seq!['*', '*', '*']);
    let r = replace_all_chars(&m, &s, &stars);
    string_of(&r)
}

/// The error text for a failed gocryptfs run: its standard output and error,
/// each without trailing white space, joined and trimmed; or, when that is
/// empty, the exit status (-1 when it was killed by a signal).
pub open spec fn failure_text(stdout: Seq<char>, stderr: Seq<char>, code: Option<i32>) -> Seq<char> {
    let combined = trim(trim_end(stdout) + trim_end(stderr));
    if combined.len() == 0 {
        "gocryptfs exited with status "@ + decimal(
            match code {
                Some(c) => c as int,
                None => -1,
            },
        )
    } else {
        combined
    }
}

/// Describes a failed gocryptfs run from its output and exit code.
pub fn describe_failure(stdout: &str, stderr: &str, code: Option<i32>) -> (r: String)
    ensures
        r@ == failure_text(stdout@, stderr@, code),
{
    let out = chars_of(stdout);
    let err = chars_of(stderr);
    let mut combined = trim_end_chars(&out);
    let err_trimmed = trim_end_chars(&err);
    append_chars(&mut combined, &err_trimmed);
    let trimmed = trim_chars(&combined);
    if trimmed.len() == 0 {
        let mut r = String::from_str("gocryptfs exited with status ");
        let status = match code {
            Some(c) => c,
            None => -1,
        };
        let digits = decimal_of_i32(status);
        r.append(digits.as_str());
        r
    } else {
        string_of(&trimmed)
    }
}

/// The error when gocryptfs created the vault but printed no master key.
pub open spec fn missing_key_message() -> Seq<char> {
    "vault was created but the master key could not be read from gocryptfs output"@
}

/// What creating the vault came to, from the run's exit status and output:
/// the master key, or the error to surface with the passphrase scrubbed.
pub fn init_outcome(success: bool, stdout: &str, stderr: &str, code: Option<i32>, passphrase: &str) -> (r: Result<String, String>)
    ensures
        r is Ok <==> success && master_key_in(stdout@ + stderr@) is Some,
        match r {
            Ok(k) => master_key_in(stdout@ + stderr@) == Some(k@),
            Err(e) => e@ == if !success {
                redacted(failure_text(stdout@, stderr@, code), passphrase@)
            } else {
                missing_key_message()
            },
        },
{
    if !success {
        let failure = describe_failure(stdout, stderr, code);
        return Err(redact_secret(failure.as_str(), passphrase));
    }
    let mut combined = String::from_str(stdout);
    combined.append(stderr);
    match extract_master_key(combined.as_str()) {
        Some(k) => Ok(k),
        None => Err(String::from_str("vault was created but the master key could not be read from gocryptfs output")),
    }
}

/// What mounting the vault came to: success, or the error to surface with
/// the passphrase or recovery key scrubbed.
pub fn mount_outcome(success: bool, stdout: &str, stderr: &str, code: Option<i32>, secret: &str) -> (r: Result<(), String>)
    ensures
        r is Ok <==> success,
        r matches Err(e) ==> e@ == redacted(failure_text(stdout@, stderr@, code), secret@),
{
    if success {
        Ok(())
    } else {
        let failure = describe_failure(stdout, stderr, code);
        Err(redact_secret(failure.as_str(), secret))
    }
}

/// What changing the passphrase came to: success, or the error to surface
/// with the recovery key and then the new passphrase scrubbed.
pub fn passphrase_change_outcome(
    success: bool,
    stdout: &str,
    stderr: &str,
    code: Option<i32>,
    master_key: &str,
    new_passphrase: &str,
) -> (r: Result<(), String>)
    ensures
        r is Ok <==> success,
        r matches Err(e) ==> e@ == redacted(
            redacted(failure_text(stdout@, stderr@, code), master_key@),
            new_passphrase@,
        ),
{
    if success {
        Ok(())
    } else {
        let failure = describe_failure(stdout, stderr, code);
        let once = redact_secret(failure.as_str(), master_key);
        Err(redact_secret(once.as_str(), new_passphrase))
    }
}

/// How one gocryptfs operation is run: its arguments and the text written
/// to its standard input.
pub struct Invocation {
    pub arguments: Vec<String>,
    pub stdin: String,
}

/// `s` as one single-quoted shell word.
pub open spec fn shell_quoted(s: Seq<char>) -> Seq<char> {
    seq!['\''] + replace_all(s, seq!['\''], seq!['\'', '\\', '\'', '\'']) + seq!['\'']
}

/// The `script` invocation that runs `gocryptfs -init` under a pseudo
/// terminal (gocryptfs prints the master key only on a terminal), with the
/// passphrase given twice on standard input.
pub fn init_invocation(program: &str, cipher_dir: &str, passphrase: &str) -> (r: Invocation)
    ensures
        views(r.arguments@) == seq![
            "-qec"@,
            program@ + " -init "@ + shell_quoted(cipher_dir@),
            "/dev/null"@,
        ],
        r.stdin@ == passphrase@ + "\n"@ + passphrase@ + "\n"@,
{
    let dir = chars_of(cipher_dir);
    let quote = vec!['\''];
    let escaped_quote = vec!['\'', '\\', '\'', '\''];
    assert(quote@ =~= seq!['\'']);
    assert(escaped_quote@ =~= seq!['\'', '\\', '\'', '\'']);
    let inner = replace_all_chars(&dir, &quote, &escaped_quote);
    let mut quoted: Vec<char> = Vec::new();
    quoted.push('\'');
    append_chars(&mut quoted, &inner);
    quoted.push('\'');
    assert(quoted@ =~= shell_quoted(cipher_dir@));
    let mut command = String::from_str(program);
    command.append(" -init ");
    let quoted_string = string_of(&quoted);
    command.append(quoted_string.as_str());
    let mut arguments: Vec<String> = Vec::new();
    arguments.push(String::from_str("-qec"));
    arguments.push(command);
    arguments.push(String::from_str("/dev/null"));
    let mut stdin = String::from_str(passphrase);
    stdin.append("\n");
    stdin.append(passphrase);
    stdin.append("\n");
    assert(views(arguments@) =~= seq![
        "-qec"@,
        program@ + " -init "@ + shell_quoted(cipher_dir@),
        "/dev/null"@,
    ]);
    Invocation { arguments, stdin }
}

/// `gocryptfs -q <cipher dir> <mount dir>`, with the passphrase on standard input.
pub fn unlock_invocation(cipher_dir: &str, mount_dir: &str, passphrase: &str) -> (r: Invocation)
    ensures
        views(r.arguments@) == seq!["-q"@, cipher_dir@, mount_dir@],
        r.stdin@ == passphrase@ + "\n"@,
{
    let mut arguments: Vec<String> = Vec::new();
    arguments.push(String::from_str("-q"));
    arguments.push(String::from_str(cipher_dir));
    arguments.push(String::from_str(mount_dir));
    let mut stdin = String::from_str(passphrase);
    stdin.append("\n");
    assert(views(arguments@) =~= seq!["-q"@, cipher_dir@, mount_dir@]);
    Invocation { arguments, stdin }
}

/// `gocryptfs -q -masterkey=<key> <cipher dir> <mount dir>` with nothing on
/// standard input: gocryptfs takes the master key only as an argument.
pub fn recovery_unlock_invocation(cipher_dir: &str, mount_dir: &str, master_key: &str) -> (r: Invocation)
    ensures
        views(r.arguments@) == seq!["-q"@, "-masterkey="@ + master_key@, cipher_dir@, mount_dir@],
        r.stdin@ == Seq::<char>::empty(),
{
    let mut key_argument = String::from_str("-masterkey=");
    key_argument.append(master_key);
    let mut arguments: Vec<String> = Vec::new();
    arguments.push(String::from_str("-q"));
    arguments.push(key_argument);
    arguments.push(String::from_str(cipher_dir));
    arguments.push(String::from_str(mount_dir));
    assert(views(arguments@) =~= seq!["-q"@, "-masterkey="@ + master_key@, cipher_dir@, mount_dir@]);
    Invocation { arguments, stdin: String::new() }
}

/// `gocryptfs -passwd -masterkey=<key> <cipher dir>`, with the new passphrase
/// given twice on standard input.
pub fn set_passphrase_invocation(cipher_dir: &str, master_key: &str, new_passphrase: &str) -> (r: Invocation)
    ensures
        views(r.arguments@) == seq!["-passwd"@, "-masterkey="@ + master_key@, cipher_dir@],
        r.stdin@ == new_passphrase@ + "\n"@ + new_passphrase@ + "\n"@,
{
    let mut key_argument = String::from_str("-masterkey=");
    key_argument.append(master_key);
    let mut arguments: Vec<String> = Vec::new();
    arguments.push(String::from_str("-passwd"));
    arguments.push(key_argument);
    arguments.push(String::from_str(cipher_dir));
    let mut stdin = String::from_str(new_passphrase);
    stdin.append("\n");
    stdin.append(new_passphrase);
    stdin.append("\n");
    assert(views(arguments@) =~= seq!["-passwd"@, "-masterkey="@ + master_key@, cipher_dir@]);
    Invocation { arguments, stdin }
}

/// The view of an unmount command: program name and arguments.
pub open spec fn command_view(c: (String, Vec<String>)) -> (Seq<char>, Seq<Seq<char>>) {
    (c.0@, views(c.1@))
}

/// The unmount commands tried in order: `fusermount3`, `fusermount`, then
/// `umount`, each lazily (`-uz`, `-l`) when asked to detach a busy mount.
pub fn unmount_candidates(mount_dir: &str, lazy: bool) -> (r: Vec<(String, Vec<String>)>)
    ensures
        r@.map_values(|c: (String, Vec<String>)| command_view(c)) == if lazy {
            seq![
                ("fusermount3"@, seq!["-uz"@, mount_dir@]),
                ("fusermount"@, seq!["-uz"@, mount_dir@]),
                ("umount"@, seq!["-l"@, mount_dir@]),
            ]
        } else {
            seq![
                ("fusermount3"@, seq!["-u"@, mount_dir@]),
                ("fusermount"@, seq!["-u"@, mount_dir@]),
                ("umount"@, seq![mount_dir@]),
            ]
        },
{
    let flag = if lazy { "-uz" } else { "-u" };
    let mut first: Vec<String> = Vec::new();
    first.push(String::from_str(flag));
    first.push(String::from_str(mount_dir));
    let mut second: Vec<String> = Vec::new();
    second.push(String::from_str(flag));
    second.push(String::from_str(mount_dir));
    let mut third: Vec<String> = Vec::new();
    if lazy {
        third.push(String::from_str("-l"));
    }
    third.push(String::from_str(mount_dir));
    let mut r: Vec<(String, Vec<String>)> = Vec::new();
    r.push((String::from_str("fusermount3"), first));
    r.push((String::from_str("fusermount"), second));
    r.push((String::from_str("umount"), third));
    proof {
        let m = r@.map_values(|c: (String, Vec<String>)| command_view(c));
        assert(m[0].1 =~= seq![flag@, mount_dir@]);
        assert(m[1].1 =~= seq![flag@, mount_dir@]);
        if lazy {
            assert(m[2].1 =~= seq!["-l"@, mount_dir@]);
        } else {
            assert(m[2].1 =~= seq![mount_dir@]);
        }
    }
    r
}

/// The error when every unmount command failed: each command's failure,
/// in order, separated by "; ".
pub fn unmount_failure(errors: &Vec<String>) -> (r: String)
    ensures
        r@ == "failed to unmount: "@ + join(views(errors@), "; "@),
{
    let mut r = String::from_str("failed to unmount: ");
    let joined = join_strings(errors, "; ");
    r.append(joined.as_str());
    r
}

/// `ETXTBSY`: running a program that is still being written.
pub const TEXT_FILE_BUSY: i32 = 26;

/// How often starting a program is attempted while it reports `ETXTBSY`.
pub const BUSY_RETRY_ATTEMPTS: usize = 10;

/// `EXDEV`: a rename across file systems.
pub const CROSS_DEVICE: i32 = 18;

/// Whether to start a program again after a failed attempt: only when it
/// failed with `ETXTBSY` and fewer than ten attempts were made.
pub fn retry_after_failure(os_error: Option<i32>, attempts: usize) -> (r: bool)
    ensures
        r == (os_error == Some(TEXT_FILE_BUSY) && attempts < BUSY_RETRY_ATTEMPTS),
{
    match os_error {
        Some(code) => code == TEXT_FILE_BUSY && attempts < BUSY_RETRY_ATTEMPTS,
        None => false,
    }
}

/// Whether a failed rename is redone as copy and delete: only across file
/// systems (moving into the FUSE mount).
pub fn copy_instead_of_rename(os_error: Option<i32>) -> (r: bool)
    ensures
        r == (os_error == Some(CROSS_DEVICE)),
{
    match os_error {
        Some(code) => code == CROSS_DEVICE,
        None => false,
    }
}

/// The name tried for a moved entry: the entry's own name first, then
/// `<name>-1`, `<name>-2`, ... while the name is taken.
pub open spec fn candidate_name(file_name: Seq<char>, suffix: nat) -> Seq<char> {
    if suffix == 0 {
        file_name
    } else {
        file_name + seq!['-'] + decimal(suffix as int)
    }
}

pub fn destination_name(file_name: &str, suffix: usize) -> (r: String)
    ensures
        r@ == candidate_name(file_name@, suffix as nat),
{
    let mut r = String::from_str(file_name);
    if suffix > 0 {
        push_char(&mut r, '-');
        let digits = decimal_of_usize(suffix);
        r.append(digits.as_str());
    }
    r
}

} // verus!
