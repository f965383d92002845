//! The line commands of the serial test programs: `conf <parameters>` sets
//! the serial parameters, `rts <0|1|false|true>` sets RTS, and any other line
//! is echoed back in upper case.

use vstd::prelude::*;
use crate::config::SerialConfig;
use crate::error::ErrorKind;
use crate::config_text::parse_config;
use crate::text::{chars_of, is_white_space, lemma_trim_start_skip, trim_start, white_space};

verus! {

/// Length of the run of non-white-space characters at the start of `t`.
pub open spec fn token_len(t: Seq<char>) -> nat
    decreases t.len(),
{
    if t.len() > 0 && !is_white_space(t[0]) {
        1 + token_len(t.drop_first())
    } else {
        0
    }
}

/// The first white-space separated token of `t` and the text after it, as
/// `str::split_whitespace` gives them; `None` if `t` holds only white space.
pub open spec fn next_token(t: Seq<char>) -> Option<(Seq<char>, Seq<char>)> {
    let u = trim_start(t);
    if u.len() == 0 {
        None
    } else {
        Some((u.take(token_len(u) as int), u.skip(token_len(u) as int)))
    }
}

/// A line received by the test programs.
#[derive(Debug)]
pub enum Command {
    /// A line of white space only: ignored.
    Empty,
    /// `conf` with parameters that read as serial parameters.
    Conf(SerialConfig),
    /// `conf` without parameters.
    ConfMissing,
    /// `conf` with parameters that do not read as serial parameters.
    ConfInvalid(String),
    /// `rts` with a value.
    Rts(bool),
    /// `rts` without a value of `0`, `1`, `false` or `true`.
    RtsInvalid,
    /// Any other line: to be echoed.
    Echo,
}

/// The command that a line denotes.
pub open spec fn command_of(line: Seq<char>) -> Command {
    match next_token(line) {
        None => Command::Empty,
        Some((name, rest)) => if name == "conf"@ {
            match next_token(rest) {
                None => Command::ConfMissing,
                Some((arg, _)) => match parse_config(arg) {
                    Some(c) => Command::Conf(c),
                    None => Command::ConfInvalid(arbitrary()),
                },
            }
        } else if name == "rts"@ {
            match next_token(rest) {
                Some((arg, _)) => if arg == "0"@ || arg == "false"@ {
                    Command::Rts(false)
                } else if arg == "1"@ || arg == "true"@ {
                    Command::Rts(true)
                } else {
                    Command::RtsInvalid
                },
                None => Command::RtsInvalid,
            }
        } else {
            Command::Echo
        },
    }
}

/// The same command, where `ConfInvalid` carries the parameter text.
pub open spec fn command_matches(c: Command, line: Seq<char>) -> bool {
    match (c, command_of(line)) {
        (Command::ConfInvalid(s), Command::ConfInvalid(_)) => {
            let arg = next_token(next_token(line).unwrap().1).unwrap().0;
            s@ == arg
        },
        (Command::Empty, Command::Empty) => true,
        (Command::Conf(a), Command::Conf(b)) => a == b,
        (Command::ConfMissing, Command::ConfMissing) => true,
        (Command::Rts(a), Command::Rts(b)) => a == b,
        (Command::RtsInvalid, Command::RtsInvalid) => true,
        (Command::Echo, Command::Echo) => true,
        _ => false,
    }
}


proof fn lemma_token_len_unique(t: Seq<char>, i: int)
    requires
        0 <= i <= t.len(),
        i < t.len() ==> is_white_space(t[i]),
        forall|j: int| 0 <= j < i ==> !is_white_space(#[trigger] t[j]),
    ensures
        token_len(t) == i,
    decreases t.len(),
{
    if t.len() > 0 && i > 0 {
        assert forall|j: int| 0 <= j < i - 1 implies !is_white_space(#[trigger] t.drop_first()[j]) by {
            assert(t.drop_first()[j] == t[j + 1]);
        }
        lemma_token_len_unique(t.drop_first(), i - 1);
    }
}

/// The next token of `t[from..]`, as positions in `t`.
fn next_token_at(t: &Vec<char>, from: usize) -> (r: Option<(usize, usize)>)
    requires
        from <= t.len(),
    ensures
        match next_token(t@.skip(from as int)) {
            None => r is None,
            Some((tok, rest)) => r matches Some((a, b)) && from <= a < b <= t.len() && tok
                == t@.subrange(a as int, b as int) && rest == t@.skip(b as int),
        },
{
    let ghost u = t@.skip(from as int);
    let mut a = from;
    while a < t.len() && white_space(t[a])
        invariant
            from <= a <= t.len(),
            u == t@.skip(from as int),
            forall|j: int| from <= j < a ==> is_white_space(#[trigger] t@[j]),
        decreases t.len() - a,
    {
        a = a + 1;
    }
    proof {
        assert forall|j: int| 0 <= j < a - from implies is_white_space(#[trigger] u[j]) by {
            assert(u[j] == t@[j + from]);
        }
        lemma_trim_start_skip(u, a - from);
        assert(u.skip(a - from) =~= t@.skip(a as int));
        if a < t.len() {
            assert(t@.skip(a as int)[0] == t@[a as int]);
            assert(trim_start(t@.skip(a as int)) == t@.skip(a as int));
        } else {
            assert(t@.skip(a as int) =~= Seq::<char>::empty());
        }
    }
    if a == t.len() {
        return None;
    }
    let mut b = a;
    while b < t.len() && !white_space(t[b])
        invariant
            a <= b <= t.len(),
            forall|j: int| a <= j < b ==> !is_white_space(#[trigger] t@[j]),
        decreases t.len() - b,
    {
        b = b + 1;
    }
    proof {
        let w = t@.skip(a as int);
        assert forall|j: int| 0 <= j < b - a implies !is_white_space(#[trigger] w[j]) by {
            assert(w[j] == t@[j + a]);
        }
        if b < t.len() {
            assert(w[b - a] == t@[b as int]);
        }
        lemma_token_len_unique(w, b - a);
        assert(w.take(b - a) =~= t@.subrange(a as int, b as int));
        assert(w.skip(b - a) =~= t@.skip(b as int));
    }
    Some((a, b))
}

/// Whether `t[a..b]` is the text `lit`.
fn range_is(t: &Vec<char>, a: usize, b: usize, lit: &str) -> (r: bool)
    requires
        a <= b <= t.len(),
    ensures
        r == (t@.subrange(a as int, b as int) == lit@),
{
    let l = chars_of(lit);
    if b - a != l.len() {
        assert(t@.subrange(a as int, b as int).len() != lit@.len());
        return false;
    }
    let mut i: usize = 0;
    while i < l.len()
        invariant
            a <= b <= t.len(),
            b - a == l.len(),
            l@ == lit@,
            i <= l.len(),
            forall|j: int| 0 <= j < i ==> t@[a + j] == l@[j],
        decreases l.len() - i,
    {
        if t[a + i] != l[i] {
            assert(t@.subrange(a as int, b as int)[i as int] != l@[i as int]);
            return false;
        }
        i = i + 1;
    }
    assert(t@.subrange(a as int, b as int) =~= l@);
    true
}

/// Reads a received line as a command.
pub fn parse_command(line: &str) -> (c: Command)
    ensures
        command_matches(c, line@),
{
    let t = chars_of(line);
    assert(t@.skip(0) =~= t@);
    let (a, b) = match next_token_at(&t, 0) {
        None => {
            return Command::Empty;
        },
        Some(p) => p,
    };
    let is_conf = range_is(&t, a, b, "conf");
    let is_rts = range_is(&t, a, b, "rts");
    let arg = next_token_at(&t, b);
    if is_conf {
        match arg {
            None => Command::ConfMissing,
            Some((a2, b2)) => {
                let tok = line.substring_char(a2, b2);
                match SerialConfig::from_str(tok) {
                    Ok(conf) => Command::Conf(conf),
                    Err(_) => Command::ConfInvalid(String::from_str(tok)),
                }
            },
        }
    } else if is_rts {
        match arg {
            None => Command::RtsInvalid,
            Some((a2, b2)) => {
                if range_is(&t, a2, b2, "0") || range_is(&t, a2, b2, "false") {
                    Command::Rts(false)
                } else if range_is(&t, a2, b2, "1") || range_is(&t, a2, b2, "true") {
                    Command::Rts(true)
                } else {
                    Command::RtsInvalid
                }
            },
        }
    } else {
        Command::Echo
    }
}


/// Upper case of a text by the Unicode case mapping that `str::to_uppercase` applies.
pub uninterp spec fn uppercase(s: Seq<char>) -> Seq<char>;

/// `str::to_uppercase`: the text with each character replaced by its Unicode
/// upper case mapping. The mapping takes Unicode's tables to state; it is
/// named `uppercase` and not written out.
#[verifier::external_body]
fn str_to_uppercase(s: &str) -> (r: String)
    ensures
        r@ == uppercase(s@),
{
    s.to_uppercase()
}

/// What to send back for a received line: `"Ok\n"` after a `conf` or `rts`
/// command that was applied, the line in upper case for any other line, and
/// nothing for an empty line, an invalid command or one that failed.
pub fn reply(cmd: &Command, line: &str, applied: bool) -> (r: Option<String>)
    ensures
        match cmd {
            Command::Conf(_) | Command::Rts(_) => if applied {
                r matches Some(t) && t@ == "Ok\n"@
            } else {
                r is None
            },
            Command::Echo => r matches Some(t) && t@ == uppercase(line@),
            _ => r is None,
        },
{
    match cmd {
        Command::Conf(_) | Command::Rts(_) => {
            if applied {
                Some(String::from_str("Ok\n"))
            } else {
                None
            }
        },
        Command::Echo => Some(str_to_uppercase(line)),
        _ => None,
    }
}

/// What the session does after reading a line.
#[derive(Clone, Copy, Debug, PartialEq, Eq, Structural)]
pub enum ReadStep {
    /// A line was read: handle it.
    Handle,
    /// The device is gone: end the session.
    End,
    /// Reading failed otherwise (such as a timeout): read again.
    Retry,
}

/// The step after `read_line`, given the kind of its error if it failed.
pub fn read_step(error: Option<ErrorKind>) -> (r: ReadStep)
    ensures
        r == match error {
            None => ReadStep::Handle,
            Some(ErrorKind::NotConnected) => ReadStep::End,
            Some(_) => ReadStep::Retry,
        },
{
    match error {
        None => ReadStep::Handle,
        Some(ErrorKind::NotConnected) => ReadStep::End,
        Some(_) => ReadStep::Retry,
    }
}

} // verus!
