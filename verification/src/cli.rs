//! Command-line arguments of the helper.

use vstd::prelude::*;
use vstd::string::StringExecFns;
use crate::text::{chars_equal, chars_of, is_ascii_digit, is_digit, string_of};

verus! {

pub const USAGE: &'static str = "usage: omavault-helper <command> [options]

Commands:
  status   Print vault status as JSON
  init     Create the vault (passphrase on stdin)
  unlock   Mount the decrypted vault (secret on stdin)
  set-passphrase  Reset the passphrase with the recovery key
                  (recovery key and new passphrase on stdin)
  lock     Unmount the decrypted vault
  restore  Move files from 'recovered' back into the unlocked vault
  discard  Permanently delete files in 'recovered'

Options:
  --limit N          Recent files to list in status (default 10, max 100)
  --lazy             Lazy unmount when locking
  --recovery-key     Unlock with the recovery key instead of the passphrase
  -h, --help         Show this help
  -V, --version      Print the helper version as JSON

The vault root is $OMAVAULT_ROOT or ~/.local/share/omavault.";

/// The helper's version, reported by `--version`.
pub const VERSION: &'static str = "0.1.2";

pub const DEFAULT_LIMIT: usize = 10;

pub const MAX_LIMIT: usize = 100;

/// A helper command with its options.
#[derive(Debug, Clone, Copy, PartialEq, Eq, Structural)]
pub enum Command {
    Status { limit: usize },
    Init,
    Unlock { recovery_key: bool },
    SetPassphrase,
    Lock { lazy: bool },
    Restore,
    Discard,
    Help,
    Version,
}

/// The value of a run of decimal digits.
pub open spec fn digits_value(s: Seq<char>) -> int
    decreases s.len(),
{
    if s.len() == 0 {
        0
    } else {
        digits_value(s.drop_last()) * 10 + (s.last() as int - '0' as int)
    }
}

pub open spec fn all_digits(s: Seq<char>) -> bool {
    forall|i: int| 0 <= i < s.len() ==> is_ascii_digit(#[trigger] s[i])
}

/// `usize`'s `FromStr`: an optional `+`, then at least one ASCII digit, the
/// value fitting in `usize`.
pub open spec fn parse_usize(s: Seq<char>) -> Option<int> {
    let d = if s.len() > 0 && s[0] == '+' {
        s.skip(1)
    } else {
        s
    };
    if d.len() > 0 && all_digits(d) && digits_value(d) <= usize::MAX {
        Some(digits_value(d))
    } else {
        None
    }
}

proof fn lemma_digits_value_grows(s: Seq<char>, i: int)
    requires
        all_digits(s),
        0 <= i <= s.len(),
    ensures
        0 <= digits_value(s.take(i)) <= digits_value(s),
    decreases s.len() - i,
{
    if i < s.len() {
        lemma_digits_value_grows(s, i + 1);
        assert(s.take(i + 1).drop_last() =~= s.take(i));
        lemma_digits_value_nonnegative(s.take(i + 1));
        assert(is_ascii_digit(s[i]));
    } else {
        assert(s.take(i) =~= s);
        lemma_digits_value_nonnegative(s);
    }
}

proof fn lemma_digits_value_nonnegative(s: Seq<char>)
    requires
        all_digits(s),
    ensures
        digits_value(s) >= 0,
    decreases s.len(),
{
    if s.len() > 0 {
        assert(all_digits(s.drop_last()));
        lemma_digits_value_nonnegative(s.drop_last());
        assert(is_ascii_digit(s.last()));
    }
}

fn parse_usize_chars(s: &Vec<char>) -> (r: Option<usize>)
    ensures
        match r {
            Some(v) => parse_usize(s@) == Some(v as int),
            None => parse_usize(s@) is None,
        },
{
    let start: usize = if s.len() > 0 && s[0] == '+' { 1 } else { 0 };
    let n = s.len();
    let ghost d = s@.skip(start as int);
    assert(s@.skip(0) =~= s@);
    assert(d == (if s@.len() > 0 && s@[0] == '+' {
        s@.skip(1)
    } else {
        s@
    }));
    if start >= n {
        return None;
    }
    let mut value: usize = 0;
    let mut i: usize = start;
    assert(d.take(0) =~= Seq::<char>::empty());
    while i < n
        invariant
            start <= i <= n,
            n == s.len(),
            start < n,
            d == s@.skip(start as int),
            d == (if s@.len() > 0 && s@[0] == '+' {
                s@.skip(1)
            } else {
                s@
            }),
            forall|k: int| 0 <= k < i - start ==> is_ascii_digit(#[trigger] d[k]),
            value == digits_value(d.take(i - start)),
        decreases n - i,
    {
        let c = s[i];
        if !is_digit(c) {
            assert(d[i - start] == c);
            assert(!all_digits(d));
            return None;
        }
        let digit = (c as u32 - '0' as u32) as usize;
        assert(d.take(i + 1 - start).drop_last() =~= d.take(i - start));
        assert(d.take(i + 1 - start).last() == c);
        match value.checked_mul(10) {
            None => {
                proof {
                    assert forall|k: int| 0 <= k < i + 1 - start implies is_ascii_digit(#[trigger] d.take(i + 1 - start)[k]) by {
                        if k < i - start {
                            assert(d.take(i + 1 - start)[k] == d[k]);
                        }
                    }
                    lemma_digits_value_nonnegative(d.take(i + 1 - start));
                    if all_digits(d) {
                        lemma_digits_value_grows(d, i + 1 - start);
                    }
                }
                return None;
            },
            Some(tens) => match tens.checked_add(digit) {
                None => {
                    proof {
                        if all_digits(d) {
                            lemma_digits_value_grows(d, i + 1 - start);
                        }
                    }
                    return None;
                },
                Some(next) => {
                    value = next;
                },
            },
        }
        i += 1;
    }
    assert(d.take(n - start) =~= d);
    assert(all_digits(d));
    Some(value)
}

/// The outcome of parsing `args` from index `i` on, with the command name,
/// limit and flags seen so far.
pub open spec fn parse_from(
    args: Seq<Seq<char>>,
    i: int,
    name: Option<Seq<char>>,
    limit: int,
    lazy: bool,
    recovery_key: bool,
) -> Result<Command, Seq<char>>
    decreases args.len() - i,
{
    if i < 0 || i >= args.len() {
        command_of(name, limit, lazy, recovery_key)
    } else {
        let a = args[i];
        if a == "-h"@ || a == "--help"@ {
            Ok(Command::Help)
        } else if a == "-V"@ || a == "--version"@ {
            Ok(Command::Version)
        } else if a == "--limit"@ {
            if i + 1 >= args.len() {
                Err("--limit requires a value"@)
            } else {
                match parse_usize(args[i + 1]) {
                    Some(v) => parse_from(args, i + 2, name, v, lazy, recovery_key),
                    None => Err("invalid --limit value: "@ + args[i + 1]),
                }
            }
        } else if a == "--lazy"@ {
            parse_from(args, i + 1, name, limit, true, recovery_key)
        } else if a == "--recovery-key"@ {
            parse_from(args, i + 1, name, limit, lazy, true)
        } else if name is None {
            parse_from(args, i + 1, Some(a), limit, lazy, recovery_key)
        } else {
            Err("unexpected argument: "@ + a)
        }
    }
}

/// `limit` clamped to 1 ..= `MAX_LIMIT`.
pub open spec fn clamp_limit(limit: int) -> int {
    if limit < 1 {
        1
    } else if limit > MAX_LIMIT {
        MAX_LIMIT as int
    } else {
        limit
    }
}

/// The command named once all arguments are read.
pub open spec fn command_of(name: Option<Seq<char>>, limit: int, lazy: bool, recovery_key: bool) -> Result<Command, Seq<char>> {
    match name {
        Some(n) => if n == "status"@ {
            Ok(Command::Status { limit: clamp_limit(limit) as usize })
        } else if n == "init"@ {
            Ok(Command::Init)
        } else if n == "unlock"@ {
            Ok(Command::Unlock { recovery_key })
        } else if n == "set-passphrase"@ {
            Ok(Command::SetPassphrase)
        } else if n == "lock"@ {
            Ok(Command::Lock { lazy })
        } else if n == "restore"@ {
            Ok(Command::Restore)
        } else if n == "discard"@ {
            Ok(Command::Discard)
        } else {
            Err("unknown command: "@ + n)
        },
        None => Err("missing command\n"@ + USAGE@),
    }
}

proof fn lemma_parse_from_clamps(
    args: Seq<Seq<char>>,
    i: int,
    name: Option<Seq<char>>,
    limit: int,
    lazy: bool,
    recovery_key: bool,
)
    ensures
        parse_from(args, i, name, limit, lazy, recovery_key) is Ok && parse_from(
            args,
            i,
            name,
            limit,
            lazy,
            recovery_key,
        )->Ok_0 is Status ==> 1 <= parse_from(args, i, name, limit, lazy, recovery_key)->Ok_0->limit
            <= MAX_LIMIT,
    decreases args.len() - i,
{
    if i < 0 || i >= args.len() {
    } else {
        let a = args[i];
        if a == "-h"@ || a == "--help"@ || a == "-V"@ || a == "--version"@ {
        } else if a == "--limit"@ {
            if i + 1 < args.len() {
                match parse_usize(args[i + 1]) {
                    Some(v) => lemma_parse_from_clamps(args, i + 2, name, v, lazy, recovery_key),
                    None => {},
                }
            }
        } else if a == "--lazy"@ {
            lemma_parse_from_clamps(args, i + 1, name, limit, true, recovery_key);
        } else if a == "--recovery-key"@ {
            lemma_parse_from_clamps(args, i + 1, name, limit, lazy, true);
        } else if name is None {
            lemma_parse_from_clamps(args, i + 1, Some(a), limit, lazy, recovery_key);
        }
    }
}

/// Whatever the arguments, a parsed status command lists between 1 and
/// `MAX_LIMIT` recent files.
pub proof fn lemma_status_limit_in_range(args: Seq<Seq<char>>)
    ensures
        parsed(args) is Ok && parsed(args)->Ok_0 is Status ==> 1 <= parsed(args)->Ok_0->limit
            <= MAX_LIMIT,
{
    lemma_parse_from_clamps(args, 0, None, DEFAULT_LIMIT as int, false, false);
}

/// The outcome of parsing the helper's arguments.
pub open spec fn parsed(args: Seq<Seq<char>>) -> Result<Command, Seq<char>> {
    parse_from(args, 0, None, DEFAULT_LIMIT as int, false, false)
}

/// The views of the arguments.
pub open spec fn argument_views(arguments: Seq<String>) -> Seq<Seq<char>> {
    arguments.map_values(|a: String| a@)
}

fn word(s: &str) -> (r: Vec<char>)
    ensures
        r@ == s@,
{
    chars_of(s)
}

fn concat_message(prefix: &str, rest: &Vec<char>) -> (r: String)
    ensures
        r@ == prefix@ + rest@,
{
    let mut r = String::from_str(prefix);
    let tail = string_of(rest);
    r.append(tail.as_str());
    r
}

fn command_named(name: &Vec<char>, limit: usize, lazy: bool, recovery_key: bool) -> (r: Result<Command, String>)
    ensures
        match r {
            Ok(c) => command_of(Some(name@), limit as int, lazy, recovery_key) == Ok::<Command, Seq<char>>(c),
            Err(e) => command_of(Some(name@), limit as int, lazy, recovery_key) == Err::<Command, Seq<char>>(e@),
        },
{
    if chars_equal(name, &word("status")) {
        let clamped = if limit < 1 {
            1
        } else if limit > MAX_LIMIT {
            MAX_LIMIT
        } else {
            limit
        };
        Ok(Command::Status { limit: clamped })
    } else if chars_equal(name, &word("init")) {
        Ok(Command::Init)
    } else if chars_equal(name, &word("unlock")) {
        Ok(Command::Unlock { recovery_key })
    } else if chars_equal(name, &word("set-passphrase")) {
        Ok(Command::SetPassphrase)
    } else if chars_equal(name, &word("lock")) {
        Ok(Command::Lock { lazy })
    } else if chars_equal(name, &word("restore")) {
        Ok(Command::Restore)
    } else if chars_equal(name, &word("discard")) {
        Ok(Command::Discard)
    } else {
        Err(concat_message("unknown command: ", name))
    }
}

/// Parses the helper's arguments (without the program name).
pub fn parse(arguments: &[String]) -> (r: Result<Command, String>)
    ensures
        match r {
            Ok(c) => parsed(argument_views(arguments@)) == Ok::<Command, Seq<char>>(c),
            Err(e) => parsed(argument_views(arguments@)) == Err::<Command, Seq<char>>(e@),
        },
{
    let ghost args = argument_views(arguments@);
    let mut name: Option<Vec<char>> = None;
    let mut limit: usize = DEFAULT_LIMIT;
    let mut lazy = false;
    let mut recovery_key = false;
    let mut index: usize = 0;
    while index < arguments.len()
        invariant
            args == argument_views(arguments@),
            index <= arguments.len(),
            parsed(args) == parse_from(
                args,
                index as int,
                match name {
                    Some(n) => Some(n@),
                    None => None,
                },
                limit as int,
                lazy,
                recovery_key,
            ),
        decreases arguments.len() - index,
    {
        let argument = chars_of(arguments[index].as_str());
        assert(args[index as int] == argument@);
        if chars_equal(&argument, &word("-h")) || chars_equal(&argument, &word("--help")) {
            return Ok(Command::Help);
        } else if chars_equal(&argument, &word("-V")) || chars_equal(&argument, &word("--version")) {
            return Ok(Command::Version);
        } else if chars_equal(&argument, &word("--limit")) {
            index += 1;
            if index >= arguments.len() {
                return Err(String::from_str("--limit requires a value"));
            }
            let value = chars_of(arguments[index].as_str());
            assert(args[index as int] == value@);
            match parse_usize_chars(&value) {
                Some(v) => {
                    limit = v;
                },
                None => {
                    return Err(concat_message("invalid --limit value: ", &value));
                },
            }
        } else if chars_equal(&argument, &word("--lazy")) {
            lazy = true;
        } else if chars_equal(&argument, &word("--recovery-key")) {
            recovery_key = true;
        } else if name.is_none() {
            name = Some(argument);
        } else {
            return Err(concat_message("unexpected argument: ", &argument));
        }
        index += 1;
    }
    match name {
        Some(n) => command_named(&n, limit, lazy, recovery_key),
        None => {
            let mut message = String::from_str("missing command\n");
            message.append(USAGE);
            Err(message)
        },
    }
}

} // verus!
