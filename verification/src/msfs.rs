//! The HTTP bridge connector state and payloads.
//!
//! The bridge is probed with a status request at connect time; a poll
//! fetches the full variable set and replaces the cached snapshot wholesale
//! on success, while a failed or timed-out poll keeps the previous snapshot
//! and never marks the connector disconnected. Writes and commands travel as
//! small JSON payloads and require connected state. The HTTP client itself
//! lives outside the library; this module owns the connector state and every
//! payload byte.
use crate::decstr::{dec_str, digit_char, u64_to_string};
use crate::snapshot::{entries_map, Snapshot};
use crate::value::SimValue;
use crate::CoreError;
use vstd::prelude::*;

verus! {

/// The character for one hexadecimal digit.
pub open spec fn hex_char(d: nat) -> char {
    if d < 10 {
        digit_char(d)
    } else if d == 10 {
        'a'
    } else if d == 11 {
        'b'
    } else if d == 12 {
        'c'
    } else if d == 13 {
        'd'
    } else if d == 14 {
        'e'
    } else {
        'f'
    }
}

/// The JSON escape of one character.
pub open spec fn escape_char(c: char) -> Seq<char> {
    if c == '"' {
        seq!['\\', '"']
    } else if c == '\\' {
        seq!['\\', '\\']
    } else if c == '\n' {
        seq!['\\', 'n']
    } else if c == '\r' {
        seq!['\\', 'r']
    } else if c == '\t' {
        seq!['\\', 't']
    } else if (c as u32) < 0x20 {
        seq!['\\', 'u', '0', '0', hex_char((c as u32 / 16) as nat), hex_char((c as u32 % 16) as nat)]
    } else {
        seq![c]
    }
}

/// The JSON escape of a string body.
pub open spec fn json_escaped(s: Seq<char>) -> Seq<char>
    decreases s.len(),
{
    if s.len() == 0 {
        Seq::empty()
    } else {
        json_escaped(s.drop_last()) + escape_char(s.last())
    }
}

/// A number zero-padded to exactly `width` decimal digits.
pub open spec fn padded_dec(n: nat, width: nat) -> Seq<char>
    decreases width,
{
    if width == 0 {
        Seq::empty()
    } else {
        padded_dec(n / 10, (width - 1) as nat).push(digit_char(n % 10))
    }
}

/// The JSON rendering of a fixed-point value: whole units, a point, and all
/// six fraction digits.
pub open spec fn json_number_str(v: int) -> Seq<char> {
    let mag = if v < 0 {
        -v
    } else {
        v
    };
    let sign: Seq<char> = if v < 0 {
        seq!['-']
    } else {
        Seq::empty()
    };
    sign + dec_str((mag / 1_000_000) as nat) + seq!['.'] + padded_dec((mag % 1_000_000) as nat, 6)
}

/// The payload of a variable write: `{"name":"...","value":...}`.
pub open spec fn simvar_payload_spec(name: Seq<char>, v: int) -> Seq<char> {
    "{\"name\":\""@ + json_escaped(name) + "\",\"value\":"@ + json_number_str(v) + "}"@
}

/// The payload of a command: `{"event":"..."}`.
pub open spec fn command_payload_spec(event: Seq<char>) -> Seq<char> {
    "{\"event\":\""@ + json_escaped(event) + "\"}"@
}

/// The string slice for one hexadecimal digit.
fn hex_digit_str(d: u32) -> (s: &'static str)
    requires
        d < 16,
    ensures
        s@ == seq![hex_char(d as nat)],
{
    if d < 10 {
        crate::decstr::digit_to_str(d as u64)
    } else {
        proof {
            reveal_strlit("a");
            reveal_strlit("b");
            reveal_strlit("c");
            reveal_strlit("d");
            reveal_strlit("e");
            reveal_strlit("f");
        }
        let s: &'static str = if d == 10 {
            "a"
        } else if d == 11 {
            "b"
        } else if d == 12 {
            "c"
        } else if d == 13 {
            "d"
        } else if d == 14 {
            "e"
        } else {
            "f"
        };
        proof {
            assert(s@ =~= seq![hex_char(d as nat)]);
        }
        s
    }
}

/// Appends the JSON escape of `s`.
#[verifier::loop_isolation(false)]
fn json_escape_append(out: &mut String, s: &str)
    ensures
        final(out)@ == old(out)@ + json_escaped(s@),
{
    proof {
        reveal_strlit("\\\"");
        reveal_strlit("\\\\");
        reveal_strlit("\\n");
        reveal_strlit("\\r");
        reveal_strlit("\\t");
        reveal_strlit("\\u00");
        assert(out@ =~= old(out)@ + json_escaped(s@.take(0)));
    }
    let n = s.unicode_len();
    let mut i: usize = 0;
    while i < n
        invariant
            i <= n,
            n == s@.len(),
            out@ == old(out)@ + json_escaped(s@.take(i as int)),
        decreases n - i,
    {
        let ghost prefix = out@;
        let c = s.get_char(i);
        if c == '"' {
            out.append("\\\"");
        } else if c == '\\' {
            out.append("\\\\");
        } else if c == '\n' {
            out.append("\\n");
        } else if c == '\r' {
            out.append("\\r");
        } else if c == '\t' {
            out.append("\\t");
        } else if (c as u32) < 0x20 {
            out.append("\\u00");
            out.append(hex_digit_str((c as u32) / 16));
            out.append(hex_digit_str((c as u32) % 16));
        } else {
            out.append(s.substring_char(i, i + 1));
        }
        proof {
            assert(s@.take(i as int + 1).drop_last() =~= s@.take(i as int));
            assert(s@.take(i as int + 1).last() == s@[i as int]);
            assert(out@ =~= prefix + escape_char(s@[i as int]));
            assert(out@ =~= old(out)@ + json_escaped(s@.take(i as int + 1)));
        }
        i += 1;
    }
    proof {
        assert(s@.take(n as int) =~= s@);
    }
}

/// Renders a number zero-padded to exactly `width` decimal digits.
fn padded_dec_string(n: u64, width: usize) -> (s: String)
    ensures
        s@ == padded_dec(n as nat, width as nat),
    decreases width,
{
    if width == 0 {
        String::new()
    } else {
        let mut s = padded_dec_string(n / 10, width - 1);
        s.append(crate::decstr::digit_to_str(n % 10));
        proof {
            assert(s@ =~= padded_dec(n as nat, width as nat));
        }
        s
    }
}

/// Appends the JSON rendering of a fixed-point value.
fn append_json_number(out: &mut String, v: SimValue)
    ensures
        final(out)@ == old(out)@ + json_number_str(v.as_int()),
{
    proof {
        reveal_strlit("-");
        reveal_strlit(".");
    }
    let mag: u64 = if v.micros < 0 {
        ((-(v.micros + 1)) as u64) + 1
    } else {
        v.micros as u64
    };
    if v.micros < 0 {
        out.append("-");
    }
    out.append(u64_to_string(mag / 1_000_000).as_str());
    out.append(".");
    out.append(padded_dec_string(mag % 1_000_000, 6).as_str());
    proof {
        assert(final(out)@ =~= old(out)@ + json_number_str(v.as_int()));
    }
}

/// The HTTP bridge connector: connection state and the cached variable
/// snapshot. The HTTP client lives with the caller; this state machine
/// decides what each request carries and what each outcome means.
#[derive(Debug)]
pub struct MSFSClient {
    /// Whether the status probe has succeeded.
    pub connected: bool,
    /// The base URL of the bridge, kept for the HTTP client's owner.
    pub bridge_url: String,
    /// The latest variable set received, by name.
    pub variables: Snapshot,
}

impl MSFSClient {
    /// The cached snapshot has unique keys.
    pub open spec fn wf(self) -> bool {
        self.variables.wf()
    }

    /// A fresh, unconnected connector against the default local bridge.
    pub fn new() -> (r: MSFSClient)
        ensures
            r.wf(),
            !r.connected,
            r.bridge_url@ == "http://127.0.0.1:8080"@,
            r.variables@ == Map::<Seq<char>, SimValue>::empty(),
    {
        MSFSClient::with_url("http://127.0.0.1:8080")
    }

    /// A fresh, unconnected connector against the given base URL.
    pub fn with_url(url: &str) -> (r: MSFSClient)
        ensures
            r.wf(),
            !r.connected,
            r.bridge_url@ == url@,
            r.variables@ == Map::<Seq<char>, SimValue>::empty(),
    {
        MSFSClient { connected: false, bridge_url: url.to_owned(), variables: Snapshot::new() }
    }

    /// Records the outcome of the status probe: success connects, failure
    /// leaves the connector untouched and surfaces a transport error.
    pub fn apply_probe(&mut self, probe_ok: bool) -> (r: Result<(), CoreError>)
        requires
            old(self).wf(),
        ensures
            final(self).wf(),
            final(self).bridge_url == old(self).bridge_url,
            final(self).variables == old(self).variables,
            probe_ok ==> final(self).connected && r == Ok::<(), CoreError>(()),
            !probe_ok ==> final(self).connected == old(self).connected && r == Err::<
                (),
                CoreError,
            >(CoreError::TransportError),
    {
        if probe_ok {
            self.connected = true;
            Ok(())
        } else {
            Err(CoreError::TransportError)
        }
    }

    /// Disconnects and forgets the cached variables.
    pub fn disconnect(&mut self)
        requires
            old(self).wf(),
        ensures
            final(self).wf(),
            !final(self).connected,
            final(self).bridge_url == old(self).bridge_url,
            final(self).variables@ == Map::<Seq<char>, SimValue>::empty(),
    {
        self.connected = false;
        self.variables.clear();
    }

    /// The cached value of a variable.
    pub fn read_variable(&self, variable: &str) -> (r: Result<SimValue, CoreError>)
        requires
            self.wf(),
        ensures
            self.variables@.contains_key(variable@) ==> r == Ok::<SimValue, CoreError>(
                self.variables@[variable@],
            ),
            !self.variables@.contains_key(variable@) ==> r == Err::<SimValue, CoreError>(
                CoreError::NotFound,
            ),
    {
        match self.variables.lookup(variable) {
            Some(v) => Ok(v),
            None => Err(CoreError::NotFound),
        }
    }

    /// Builds the JSON payload that writes a variable. Fails fast when not
    /// connected.
    pub fn prepare_write(&self, variable: &str, value: SimValue) -> (r: Result<String, CoreError>)
        ensures
            !self.connected ==> r == Err::<String, CoreError>(CoreError::NotConnected),
            self.connected ==> (r matches Ok(p) && p@ == simvar_payload_spec(
                variable@,
                value.as_int(),
            )),
    {
        if !self.connected {
            return Err(CoreError::NotConnected);
        }
        proof {
            reveal_strlit("{\"name\":\"");
            reveal_strlit("\",\"value\":");
            reveal_strlit("}");
        }
        let mut p = String::from_str("{\"name\":\"");
        json_escape_append(&mut p, variable);
        p.append("\",\"value\":");
        append_json_number(&mut p, value);
        p.append("}");
        proof {
            assert(p@ =~= simvar_payload_spec(variable@, value.as_int()));
        }
        Ok(p)
    }

    /// Builds the JSON payload that executes a command. Fails fast when not
    /// connected.
    pub fn prepare_command(&self, command: &str) -> (r: Result<String, CoreError>)
        ensures
            !self.connected ==> r == Err::<String, CoreError>(CoreError::NotConnected),
            self.connected ==> (r matches Ok(p) && p@ == command_payload_spec(command@)),
    {
        if !self.connected {
            return Err(CoreError::NotConnected);
        }
        proof {
            reveal_strlit("{\"event\":\"");
            reveal_strlit("\"}");
        }
        let mut p = String::from_str("{\"event\":\"");
        json_escape_append(&mut p, command);
        p.append("\"}");
        proof {
            assert(p@ =~= command_payload_spec(command@));
        }
        Ok(p)
    }

    /// Applies the outcome of one poll: a successful fetch replaces the
    /// snapshot wholesale; a failed or timed-out fetch keeps the previous
    /// snapshot intact and does not mark the connector disconnected.
    #[verifier::loop_isolation(false)]
    pub fn apply_poll(&mut self, result: Option<Vec<(String, SimValue)>>)
        requires
            old(self).wf(),
        ensures
            final(self).wf(),
            final(self).connected == old(self).connected,
            final(self).bridge_url == old(self).bridge_url,
            match result {
                Some(pairs) => final(self).variables@ == entries_map(pairs@),
                None => final(self).variables == old(self).variables,
            },
    {
        match result {
            Some(pairs) => {
                let mut fresh = Snapshot::new();
                let mut i: usize = 0;
                while i < pairs.len()
                    invariant
                        i <= pairs@.len(),
                        fresh.wf(),
                        fresh@ == entries_map(pairs@.take(i as int)),
                    decreases pairs@.len() - i,
                {
                    let e = &pairs[i];
                    fresh.set(e.0.as_str(), e.1);
                    proof {
                        assert(pairs@.take(i as int + 1).drop_last() =~= pairs@.take(i as int));
                        assert(pairs@.take(i as int + 1).last() == pairs@[i as int]);
                    }
                    i += 1;
                }
                proof {
                    assert(pairs@.take(pairs@.len() as int) =~= pairs@);
                }
                self.variables = fresh;
            },
            None => {},
        }
    }

    /// The latest cached snapshot; empty before the first successful poll.
    pub fn get_all_variables(&self) -> (r: Snapshot)
        requires
            self.wf(),
        ensures
            r.wf(),
            r@ == self.variables@,
    {
        self.variables.duplicate()
    }
}

} // verus!
