use vstd::prelude::*;

verus! {

/// The decimal digit character for `d`, which is below ten.
pub open spec fn digit_char(d: nat) -> char
    recommends
        d < 10,
{
    (d + 48) as char
}

/// The decimal digits of `n`, most significant first, with no leading zero.
pub open spec fn decimal(n: nat) -> Seq<char>
    decreases n,
{
    if n < 10 {
        seq![digit_char(n)]
    } else {
        decimal(n / 10).push(digit_char(n % 10))
    }
}

/// The text that reports the socket's state: its load is shown only while it
/// is on.
pub open spec fn state_text(s: SmartSocket) -> Seq<char> {
    if s.on {
        "state: on. load: "@ + decimal(s.load as nat)
    } else {
        "state: off"@
    }
}

/// The controlled socket: whether it is switched on, and the load it carries.
///
/// Any pair of values is a valid state: a load may be set while the socket is
/// off, and switching off clears it.
pub struct SmartSocket {
    pub on: bool,
    pub load: u32,
}

impl SmartSocket {
    /// A socket that is off and carries no load.
    pub fn new() -> (r: SmartSocket)
        ensures
            r == (SmartSocket { on: false, load: 0 }),
    {
        SmartSocket { on: false, load: 0 }
    }

    /// Switches the socket on; the load is kept.
    pub fn turn_on(&mut self)
        ensures
            *final(self) == (SmartSocket { on: true, load: old(self).load }),
    {
        self.on = true;
    }

    /// Switches the socket off, which also clears the load.
    pub fn turn_off(&mut self)
        ensures
            *final(self) == (SmartSocket { on: false, load: 0 }),
    {
        self.on = false;
        self.load = 0;
    }

    /// Sets the load, whether the socket is on or off.
    pub fn set_load(&mut self, load: u32)
        ensures
            *final(self) == (SmartSocket { on: old(self).on, load }),
    {
        self.load = load;
    }

    /// The state report: `state: on. load: <load>` or `state: off`.
    pub fn state_line(&self) -> (r: String)
        ensures
            r@ == state_text(*self),
    {
        if self.on {
            let mut r = String::from_str("state: on. load: ");
            push_decimal(&mut r, self.load);
            r
        } else {
            String::from_str("state: off")
        }
    }

    /// The socket's status line as a catalog of devices shows it: the state
    /// report after a `[socket] ` tag.
    pub fn to_string(&self) -> (r: String)
        ensures
            r@ == "[socket] "@ + state_text(*self),
    {
        let mut r = String::from_str("[socket] ");
        let state = self.state_line();
        r.append(state.as_str());
        r
    }
}

/// The line that a catalog report shows for a socket: its state in capitals,
/// and its load whether on or off.
pub open spec fn info_text(s: SmartSocket) -> Seq<char> {
    "device_info: [SmartSocket] state: "@ + (if s.on {
        "ON"@
    } else {
        "OFF"@
    }) + ". load: "@ + decimal(s.load as nat)
}

impl SmartSocket {
    /// The line that a catalog report shows for this socket, as `info_text`
    /// says.
    pub fn device_info(&self) -> (r: String)
        ensures
            r@ == info_text(*self),
    {
        let mut r = String::from_str("device_info: [SmartSocket] state: ");
        if self.on {
            r.append("ON");
        } else {
            r.append("OFF");
        }
        r.append(". load: ");
        push_decimal(&mut r, self.load);
        r
    }
}

impl Default for SmartSocket {
    fn default() -> (r: SmartSocket)
        ensures
            r == (SmartSocket { on: false, load: 0 }),
    {
        SmartSocket::new()
    }
}

/// The one-character string of the decimal digit `d`.
fn digit_str(d: u32) -> (r: &'static str)
    requires
        d < 10,
    ensures
        r@ == seq![digit_char(d as nat)],
{
    proof {
        reveal_strlit("0");
        reveal_strlit("1");
        reveal_strlit("2");
        reveal_strlit("3");
        reveal_strlit("4");
        reveal_strlit("5");
        reveal_strlit("6");
        reveal_strlit("7");
        reveal_strlit("8");
        reveal_strlit("9");
    }
    match d {
        0 => "0",
        1 => "1",
        2 => "2",
        3 => "3",
        4 => "4",
        5 => "5",
        6 => "6",
        7 => "7",
        8 => "8",
        _ => "9",
    }
}

/// Appends the decimal digits of `n` to `out`.
pub fn push_decimal(out: &mut String, n: u32)
    ensures
        final(out)@ == old(out)@ + decimal(n as nat),
    decreases n,
{
    if n >= 10 {
        push_decimal(out, n / 10);
    }
    out.append(digit_str(n % 10));
    proof {
        assert(final(out)@ =~= old(out)@ + decimal(n as nat));
    }
}

} // verus!
