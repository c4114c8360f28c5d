use vstd::prelude::*;

use vstd::slice::slice_subrange;
use vstd::std_specs::iter::IteratorSpec;

use crate::device::{SmartSocket, decimal, digit_char, state_text};

verus! {

/// Why a command line was refused.
#[derive(Clone, Copy, Debug, PartialEq, Eq, Structural)]
pub enum CommandError {
    /// The line starts with `load ` and what follows is not a `u32`.
    LoadParse,
    /// The line is none of the commands.
    UnknownCommand,
}

/// The text sent to the client for each error.
pub open spec fn error_text(e: CommandError) -> Seq<char> {
    match e {
        CommandError::LoadParse => "error while parsing load"@,
        CommandError::UnknownCommand => "-unknown command"@,
    }
}

impl CommandError {
    /// The text sent to the client for this error.
    pub fn message(&self) -> (r: &'static str)
        ensures
            r@ == error_text(*self),
    {
        match self {
            CommandError::LoadParse => "error while parsing load",
            CommandError::UnknownCommand => "-unknown command",
        }
    }
}

/// An ASCII decimal digit.
pub open spec fn is_digit(c: char) -> bool {
    '0' <= c <= '9'
}

/// Every character of `d` is an ASCII decimal digit.
pub open spec fn all_digits(d: Seq<char>) -> bool {
    forall|i: int| 0 <= i < d.len() ==> #[trigger] is_digit(d[i])
}

/// The number that the decimal digits `d` spell, most significant first.
pub open spec fn digits_value(d: Seq<char>) -> nat
    decreases d.len(),
{
    if d.len() == 0 {
        0
    } else {
        digits_value(d.drop_last()) * 10 + (d.last() as nat - '0' as nat) as nat
    }
}

/// The digits of a load argument: an optional leading `+` is dropped.
pub open spec fn unsigned_digits(t: Seq<char>) -> Seq<char> {
    if t.len() > 0 && t[0] == '+' {
        t.drop_first()
    } else {
        t
    }
}

/// The value of a load argument, as a `u32` is read from text: an optional
/// `+`, then one or more decimal digits whose value fits in 32 bits. Anything
/// else (a sign `-`, spaces, other characters, nothing) is no value.
pub open spec fn parse_load(t: Seq<char>) -> Option<u32> {
    let d = unsigned_digits(t);
    if d.len() > 0 && all_digits(d) && digits_value(d) <= u32::MAX {
        Some(digits_value(d) as u32)
    } else {
        None
    }
}

/// Leading digits spell no more than the whole.
proof fn lemma_digits_value_prefix(d: Seq<char>, j: int)
    requires
        all_digits(d),
        0 <= j <= d.len(),
    ensures
        digits_value(d.subrange(0, j)) <= digits_value(d),
    decreases d.len(),
{
    if j < d.len() {
        let p = d.drop_last();
        assert(all_digits(p)) by {
            assert forall|i: int| 0 <= i < p.len() implies #[trigger] is_digit(p[i]) by {
                assert(is_digit(d[i]));
            }
        }
        lemma_digits_value_prefix(p, j);
        assert(p.subrange(0, j) =~= d.subrange(0, j));
    } else {
        assert(d.subrange(0, j) =~= d);
    }
}

/// Reads a load argument; `None` where `parse_load` has no value.
pub fn parse_load_arg(t: &[char]) -> (r: Option<u32>)
    ensures
        r == parse_load(t@),
{
    let start: usize = if t.len() > 0 && t[0] == '+' {
        1
    } else {
        0
    };
    let ghost d = unsigned_digits(t@);
    assert(d =~= t@.subrange(start as int, t@.len() as int));
    if start >= t.len() {
        return None;
    }
    let mut acc: u64 = 0;
    let mut i: usize = start;
    while i < t.len()
        invariant
            start <= i <= t.len(),
            d == unsigned_digits(t@),
            d.len() > 0,
            d =~= t@.subrange(start as int, t@.len() as int),
            all_digits(d.subrange(0, i - start)),
            acc == digits_value(d.subrange(0, i - start)),
            acc <= u32::MAX,
        decreases t.len() - i,
    {
        let c = t[i];
        if !('0' <= c && c <= '9') {
            assert(!is_digit(d[i - start]));
            return None;
        }
        let ghost prev = d.subrange(0, i - start);
        let ghost next = d.subrange(0, i - start + 1);
        assert(next.drop_last() =~= prev);
        assert(next.last() == c);
        acc = acc * 10 + (c as u32 - '0' as u32) as u64;
        assert(acc == digits_value(next));
        assert(all_digits(next));
        if acc > u32::MAX as u64 {
            proof {
                if all_digits(d) {
                    lemma_digits_value_prefix(d, i - start + 1);
                }
            }
            return None;
        }
        i = i + 1;
    }
    assert(d.subrange(0, i - start) =~= d);
    Some(acc as u32)
}


/// The reply to a command that changed the socket.
pub open spec fn ack_text() -> Seq<char> {
    "+OK"@
}

/// The prefix of the command that sets the load.
pub open spec fn load_prefix() -> Seq<char> {
    "load "@
}

/// What one command line does: the socket after it, and the reply text or the
/// error. Lines are compared exactly, case included; a line that starts with
/// `load ` is a load command, and refused as such when its argument is no
/// `u32`. A refused line leaves the socket as it was.
pub open spec fn dispatch(s: SmartSocket, line: Seq<char>) -> (SmartSocket, Result<Seq<char>, CommandError>) {
    if line == "status"@ {
        (s, Ok(state_text(s)))
    } else if line == "turn on"@ {
        (SmartSocket { on: true, load: s.load }, Ok(ack_text()))
    } else if line == "turn off"@ {
        (SmartSocket { on: false, load: 0 }, Ok(ack_text()))
    } else if load_prefix().is_prefix_of(line) {
        match parse_load(line.skip(load_prefix().len() as int)) {
            Some(n) => (SmartSocket { on: s.on, load: n }, Ok(ack_text())),
            None => (s, Err(CommandError::LoadParse)),
        }
    } else {
        (s, Err(CommandError::UnknownCommand))
    }
}

/// A reply as text.
pub open spec fn reply_view(r: Result<String, CommandError>) -> Result<Seq<char>, CommandError> {
    match r {
        Ok(t) => Ok(t@),
        Err(e) => Err(e),
    }
}

/// Whether `line` starts with the characters of `lit`.
fn starts_with_lit(line: &[char], lit: &str) -> (r: bool)
    ensures
        r == lit@.is_prefix_of(line@),
{
    let n = lit.unicode_len();
    if line.len() < n {
        return false;
    }
    let mut i: usize = 0;
    while i < n
        invariant
            n == lit@.len(),
            n <= line@.len(),
            i <= n,
            forall|k: int| 0 <= k < i ==> lit@[k] == line@[k],
        decreases n - i,
    {
        if line[i] != lit.get_char(i) {
            return false;
        }
        i = i + 1;
    }
    true
}

/// Whether `line` is exactly the characters of `lit`.
pub(crate) fn is_lit(line: &[char], lit: &str) -> (r: bool)
    ensures
        r == (line@ == lit@),
{
    let p = starts_with_lit(line, lit);
    if p && line.len() == lit.unicode_len() {
        assert(line@ =~= lit@);
        true
    } else {
        false
    }
}

/// The characters of `s`, in order.
pub(crate) fn chars_of(s: &str) -> (r: Vec<char>)
    ensures
        r@ == s@,
{
    broadcast use vstd::string::group_string_axioms;

    let mut r: Vec<char> = Vec::new();
    let mut it = s.chars();
    loop
        invariant
            it.obeys_prophetic_iter_laws(),
            it.decrease() is Some,
            s@ == r@ + it.remaining(),
        ensures
            r@ == s@,
        decreases it.decrease()->0,
    {
        let ghost before = it.remaining();
        match it.next() {
            Some(c) => {
                assert(s@ =~= r@.push(c) + it.remaining());
                r.push(c);
            },
            None => {
                assert(r@ + before =~= r@);
                break;
            },
        }
    }
    r
}

/// Carries out one command line on the socket and gives its reply.
pub fn dispatch_line(socket: &mut SmartSocket, line: &[char]) -> (r: Result<String, CommandError>)
    ensures
        (*final(socket), reply_view(r)) == dispatch(*old(socket), line@),
{
    proof {
        reveal_strlit("+OK");
        reveal_strlit("load ");
    }
    if is_lit(line, "status") {
        Ok(socket.state_line())
    } else if is_lit(line, "turn on") {
        socket.turn_on();
        Ok(String::from_str("+OK"))
    } else if is_lit(line, "turn off") {
        socket.turn_off();
        Ok(String::from_str("+OK"))
    } else if starts_with_lit(line, "load ") {
        let arg = slice_subrange(line, 5, line.len());
        assert(arg@ =~= line@.skip(load_prefix().len() as int));
        match parse_load_arg(arg) {
            Some(n) => {
                socket.set_load(n);
                Ok(String::from_str("+OK"))
            },
            None => Err(CommandError::LoadParse),
        }
    } else {
        Err(CommandError::UnknownCommand)
    }
}

/// Carries out the command `msg` on the socket and gives its reply.
pub fn process_message(socket: &mut SmartSocket, msg: &str) -> (r: Result<String, CommandError>)
    ensures
        (*final(socket), reply_view(r)) == dispatch(*old(socket), msg@),
{
    let line = chars_of(msg);
    dispatch_line(socket, line.as_slice())
}

/// The decimal digits of a number read back as that number.
pub proof fn lemma_decimal_digits(n: nat)
    ensures
        decimal(n).len() > 0,
        all_digits(decimal(n)),
        digits_value(decimal(n)) == n,
    decreases n,
{
    assert(digit_char(n % 10) as nat == n % 10 + 48);
    if n >= 10 {
        lemma_decimal_digits(n / 10);
        let d = decimal(n);
        assert(d.drop_last() =~= decimal(n / 10));
        assert(d.last() == digit_char(n % 10));
        assert((n / 10) * 10 + n % 10 == n) by (nonlinear_arith);
        assert(digits_value(d) == (n / 10) * 10 + n % 10);
        assert forall|i: int| 0 <= i < d.len() implies #[trigger] is_digit(d[i]) by {
            if i < d.len() - 1 {
                assert(d[i] == decimal(n / 10)[i]);
            }
        }
    } else {
        assert(decimal(n).drop_last() =~= Seq::<char>::empty());
        assert('0' as nat == 48);
        assert(digit_char(n) as nat == n + 48);
        assert(digits_value(Seq::<char>::empty()) == 0);
    }
}

/// A load argument written as the decimal digits of a `u32` is read as that
/// number.
pub proof fn lemma_parse_decimal(n: u32)
    ensures
        parse_load(decimal(n as nat)) == Some(n),
{
    lemma_decimal_digits(n as nat);
    assert(is_digit(decimal(n as nat)[0]));
}

/// Switching off clears the load, whatever the socket was before.
pub proof fn lemma_turn_off_clears_load(s: SmartSocket)
    ensures
        dispatch(s, "turn off"@) == (SmartSocket { on: false, load: 0 }, Ok::<Seq<char>, CommandError>(ack_text())),
        dispatch(s, "turn off"@).0.load == 0,
{
    reveal_strlit("status");
    reveal_strlit("turn on");
    reveal_strlit("turn off");
    assert("turn off"@.len() != "status"@.len());
    assert("turn off"@.len() != "turn on"@.len());
}

/// `load N` sets the load to exactly `N` for every `u32` `N`, and keeps the
/// socket on or off as it was.
pub proof fn lemma_load_sets_exactly(s: SmartSocket, n: u32)
    ensures
        dispatch(s, load_prefix() + decimal(n as nat)) == (SmartSocket { on: s.on, load: n }, Ok::<Seq<char>, CommandError>(ack_text())),
{
    reveal_strlit("status");
    reveal_strlit("turn on");
    reveal_strlit("turn off");
    reveal_strlit("load ");
    let line = load_prefix() + decimal(n as nat);
    assert(line[0] == 'l');
    assert(line != "status"@);
    assert(line != "turn on"@);
    assert(line != "turn off"@);
    assert(load_prefix().is_prefix_of(line));
    assert(line.skip(5) =~= decimal(n as nat));
    lemma_parse_decimal(n);
}

/// `load ` followed by anything that is no `u32` is refused as a load error and
/// leaves the socket unchanged.
pub proof fn lemma_bad_load_refused(s: SmartSocket, arg: Seq<char>)
    requires
        parse_load(arg) is None,
    ensures
        dispatch(s, load_prefix() + arg) == (s, Err::<Seq<char>, CommandError>(CommandError::LoadParse)),
{
    reveal_strlit("status");
    reveal_strlit("turn on");
    reveal_strlit("turn off");
    reveal_strlit("load ");
    let line = load_prefix() + arg;
    assert(line[0] == 'l');
    assert(line != "status"@);
    assert(line != "turn on"@);
    assert(line != "turn off"@);
    assert(load_prefix().is_prefix_of(line));
    assert(line.skip(5) =~= arg);
}

/// A line that is no command, and does not start with `load `, is refused as
/// unknown and leaves the socket unchanged.
pub proof fn lemma_unknown_refused(s: SmartSocket, line: Seq<char>)
    requires
        line != "status"@,
        line != "turn on"@,
        line != "turn off"@,
        !load_prefix().is_prefix_of(line),
    ensures
        dispatch(s, line) == (s, Err::<Seq<char>, CommandError>(CommandError::UnknownCommand)),
{
}

} // verus!
