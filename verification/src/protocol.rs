//! The microcontroller line protocol.
//!
//! Commands are serialized as `<numeric-id>[,<arg>...];` ASCII lines, one
//! command per write. Responses are parsed by trimming whitespace at the line
//! ends, stripping trailing `;`, and splitting on `,`; the first field is the
//! numeric id, the remainder are string arguments. Known ids decode to a typed
//! [`Response`]; any other id decodes to [`Response::Unknown`] — unrecognized
//! ids are unclassified data, never errors.
use crate::decstr::{dec_str, dec_str_signed, i64_to_string, u64_to_string};
use crate::text::{
    all_digits, dec_val, digit_value, is_dec_digit, is_digit_char, is_line_ws, is_ws_char,
    lemma_dec_val_prefix_le,
};
use vstd::prelude::*;

verus! {

/// A command sent to a microcontroller.
#[derive(Debug, Clone, PartialEq)]
pub enum Command {
    Init,
    GetInfo,
    GetName,
    SetName(String),
    GetVersion,
    ResetBoard,
    /// pin, value
    SetPin(u8, u8),
    /// module, index, value
    Set7Segment(u8, u8, String),
    /// display id, line, text
    SetLCD(u8, u8, String),
    /// motor id, steps (negative = reverse)
    SetStepper(u8, i32),
    /// led id, r, g, b
    SetRGB(u8, u8, u8, u8),
}

impl Command {
    /// The wire id of this command.
    pub open spec fn id_spec(self) -> u8 {
        match self {
            Command::Init => 1,
            Command::ResetBoard => 5,
            Command::GetInfo => 7,
            Command::GetName => 8,
            Command::SetName(_) => 9,
            Command::GetVersion => 10,
            Command::SetPin(_, _) => 3,
            Command::Set7Segment(_, _, _) => 15,
            Command::SetLCD(_, _, _) => 16,
            Command::SetStepper(_, _) => 17,
            Command::SetRGB(_, _, _, _) => 18,
        }
    }

    /// The argument fields of this command, each rendered as on the wire.
    pub open spec fn args_spec(self) -> Seq<Seq<char>> {
        match self {
            Command::Init => seq![],
            Command::ResetBoard => seq![],
            Command::GetInfo => seq![],
            Command::GetName => seq![],
            Command::GetVersion => seq![],
            Command::SetName(name) => seq![name@],
            Command::SetPin(pin, val) => seq![dec_str(pin as nat), dec_str(val as nat)],
            Command::Set7Segment(module, index, val) => seq![
                dec_str(module as nat),
                dec_str(index as nat),
                val@,
            ],
            Command::SetLCD(display_id, line, text) => seq![
                dec_str(display_id as nat),
                dec_str(line as nat),
                text@,
            ],
            Command::SetStepper(motor_id, steps) => seq![
                dec_str(motor_id as nat),
                dec_str_signed(steps as int),
            ],
            Command::SetRGB(led_id, r, g, b) => seq![
                dec_str(led_id as nat),
                dec_str(r as nat),
                dec_str(g as nat),
                dec_str(b as nat),
            ],
        }
    }

    /// All wire fields: the id first, then the arguments.
    pub open spec fn wire_fields(self) -> Seq<Seq<char>> {
        seq![dec_str(self.id_spec() as nat)] + self.args_spec()
    }

    /// The serialized line: comma-joined fields, closed by `;`.
    pub open spec fn serialize_spec(self) -> Seq<char> {
        join_commas(self.wire_fields()) + seq![';']
    }

    /// The wire id of this command.
    pub fn id(&self) -> (r: u8)
        ensures
            r == self.id_spec(),
    {
        match self {
            Command::Init => 1,
            Command::ResetBoard => 5,
            Command::GetInfo => 7,
            Command::GetName => 8,
            Command::SetName(_) => 9,
            Command::GetVersion => 10,
            Command::SetPin(_, _) => 3,
            Command::Set7Segment(_, _, _) => 15,
            Command::SetLCD(_, _, _) => 16,
            Command::SetStepper(_, _) => 17,
            Command::SetRGB(_, _, _, _) => 18,
        }
    }

    /// Serializes this command as one protocol line.
    pub fn serialize(&self) -> (s: String)
        ensures
            s@ == self.serialize_spec(),
    {
        proof {
            reveal_strlit(",");
            reveal_strlit(";");
        }
        let mut s = u64_to_string(self.id() as u64);
        match self {
            Command::SetName(name) => {
                s.append(",");
                s.append(name.as_str());
                proof {
                    lemma_join_two(self.wire_fields());
                }
            },
            Command::SetPin(pin, val) => {
                s.append(",");
                s.append(u64_to_string(*pin as u64).as_str());
                s.append(",");
                s.append(u64_to_string(*val as u64).as_str());
                proof {
                    lemma_join_three(self.wire_fields());
                }
            },
            Command::Set7Segment(module, index, val) => {
                s.append(",");
                s.append(u64_to_string(*module as u64).as_str());
                s.append(",");
                s.append(u64_to_string(*index as u64).as_str());
                s.append(",");
                s.append(val.as_str());
                proof {
                    lemma_join_four(self.wire_fields());
                }
            },
            Command::SetLCD(display_id, line, text) => {
                s.append(",");
                s.append(u64_to_string(*display_id as u64).as_str());
                s.append(",");
                s.append(u64_to_string(*line as u64).as_str());
                s.append(",");
                s.append(text.as_str());
                proof {
                    lemma_join_four(self.wire_fields());
                }
            },
            Command::SetStepper(motor_id, steps) => {
                s.append(",");
                s.append(u64_to_string(*motor_id as u64).as_str());
                s.append(",");
                s.append(i64_to_string(*steps as i64).as_str());
                proof {
                    lemma_join_three(self.wire_fields());
                }
            },
            Command::SetRGB(led_id, r, g, b) => {
                s.append(",");
                s.append(u64_to_string(*led_id as u64).as_str());
                s.append(",");
                s.append(u64_to_string(*r as u64).as_str());
                s.append(",");
                s.append(u64_to_string(*g as u64).as_str());
                s.append(",");
                s.append(u64_to_string(*b as u64).as_str());
                proof {
                    lemma_join_five(self.wire_fields());
                }
            },
            _ => {
                proof {
                    lemma_join_one(self.wire_fields());
                }
            },
        }
        s.append(";");
        proof {
            assert(s@ =~= self.serialize_spec());
        }
        s
    }
}

/// Fields joined with one comma between neighbours.
pub open spec fn join_commas(parts: Seq<Seq<char>>) -> Seq<char>
    decreases parts.len(),
{
    if parts.len() == 0 {
        Seq::empty()
    } else if parts.len() == 1 {
        parts[0]
    } else {
        parts[0] + seq![','] + join_commas(parts.drop_first())
    }
}

proof fn lemma_join_one(parts: Seq<Seq<char>>)
    requires
        parts.len() == 1,
    ensures
        join_commas(parts) == parts[0],
{
}

proof fn lemma_join_two(parts: Seq<Seq<char>>)
    requires
        parts.len() == 2,
    ensures
        join_commas(parts) =~= parts[0] + seq![','] + parts[1],
{
    assert(parts.drop_first().len() == 1);
    assert(parts.drop_first()[0] == parts[1]);
    assert(join_commas(parts.drop_first()) == parts[1]);
}

proof fn lemma_join_three(parts: Seq<Seq<char>>)
    requires
        parts.len() == 3,
    ensures
        join_commas(parts) =~= parts[0] + seq![','] + parts[1] + seq![','] + parts[2],
{
    lemma_join_two(parts.drop_first());
}

proof fn lemma_join_four(parts: Seq<Seq<char>>)
    requires
        parts.len() == 4,
    ensures
        join_commas(parts) =~= parts[0] + seq![','] + parts[1] + seq![','] + parts[2] + seq![',']
            + parts[3],
{
    lemma_join_three(parts.drop_first());
}

/// `s` without leading whitespace.
pub open spec fn trim_front(s: Seq<char>) -> Seq<char>
    decreases s.len(),
{
    if s.len() > 0 && is_line_ws(s[0]) {
        trim_front(s.drop_first())
    } else {
        s
    }
}

/// `s` without trailing whitespace.
pub open spec fn trim_back(s: Seq<char>) -> Seq<char>
    decreases s.len(),
{
    if s.len() > 0 && is_line_ws(s.last()) {
        trim_back(s.drop_last())
    } else {
        s
    }
}

/// `s` without whitespace at either end.
pub open spec fn trim_ws(s: Seq<char>) -> Seq<char> {
    trim_back(trim_front(s))
}

/// `s` without trailing semicolons.
pub open spec fn strip_semis(s: Seq<char>) -> Seq<char>
    decreases s.len(),
{
    if s.len() > 0 && s.last() == ';' {
        strip_semis(s.drop_last())
    } else {
        s
    }
}

/// The index of the first comma of `s`, or `-1` if there is none.
pub open spec fn find_comma(s: Seq<char>) -> int
    decreases s.len(),
{
    if s.len() == 0 {
        -1
    } else if s[0] == ',' {
        0
    } else {
        let r = find_comma(s.drop_first());
        if r < 0 {
            -1
        } else {
            r + 1
        }
    }
}

/// A found comma lies inside the sequence.
pub proof fn lemma_find_comma_range(s: Seq<char>)
    ensures
        -1 <= find_comma(s) < s.len(),
    decreases s.len(),
{
    if s.len() > 0 && s[0] != ',' {
        lemma_find_comma_range(s.drop_first());
    }
}

/// The comma-separated fields of `s`. Always at least one field.
pub open spec fn split_commas(s: Seq<char>) -> Seq<Seq<char>>
    decreases s.len(),
    via split_commas_decreases
{
    let k = find_comma(s);
    if k < 0 {
        seq![s]
    } else {
        seq![s.take(k)] + split_commas(s.skip(k + 1))
    }
}

#[via_fn]
proof fn split_commas_decreases(s: Seq<char>) {
    lemma_find_comma_range(s);
}

pub proof fn lemma_find_comma_at(s: Seq<char>, k: int)
    requires
        0 <= k < s.len(),
        forall|j: int| 0 <= j < k ==> s[j] != ',',
        s[k] == ',',
    ensures
        find_comma(s) == k,
    decreases k,
{
    if k > 0 {
        lemma_find_comma_at(s.drop_first(), k - 1);
    }
}

pub proof fn lemma_find_comma_none(s: Seq<char>)
    requires
        forall|j: int| 0 <= j < s.len() ==> s[j] != ',',
    ensures
        find_comma(s) == -1,
    decreases s.len(),
{
    if s.len() > 0 {
        lemma_find_comma_none(s.drop_first());
    }
}

/// A response received from a microcontroller, in sequence form.
pub enum ResponseView {
    Info { name: Seq<char>, board_type: Seq<char>, serial: Seq<char>, version: Seq<char> },
    Data(Seq<Seq<char>>),
    InputEvent { name: Seq<char>, value: Seq<char> },
    Unknown(u8, Seq<Seq<char>>),
}

/// A response received from a microcontroller.
#[derive(Debug, Clone, PartialEq)]
pub enum Response {
    /// Identity: name, board type, serial, firmware version.
    Info { name: String, board_type: String, serial: String, version: String },
    /// Generic data fields.
    Data(Vec<String>),
    /// A hardware input event: label and raw value.
    InputEvent { name: String, value: String },
    /// Any unrecognized id with its arguments: unclassified data, not an error.
    Unknown(u8, Vec<String>),
}

impl View for Response {
    type V = ResponseView;

    open spec fn view(&self) -> ResponseView {
        match self {
            Response::Info { name, board_type, serial, version } => ResponseView::Info {
                name: name@,
                board_type: board_type@,
                serial: serial@,
                version: version@,
            },
            Response::Data(items) => ResponseView::Data(items.deep_view()),
            Response::InputEvent { name, value } => ResponseView::InputEvent {
                name: name@,
                value: value@,
            },
            Response::Unknown(id, args) => ResponseView::Unknown(*id, args.deep_view()),
        }
    }
}

/// The line with whitespace trimmed at both ends and trailing `;` stripped.
pub open spec fn line_core(s: Seq<char>) -> Seq<char> {
    strip_semis(trim_ws(s))
}

/// The id field without one optional leading plus sign.
pub open spec fn id_digits(s: Seq<char>) -> Seq<char> {
    if s.len() > 0 && s[0] == '+' {
        s.drop_first()
    } else {
        s
    }
}

/// The numeric id denoted by the first field, if it is a well-formed id:
/// digits after at most one leading `+`, fitting the one-byte id space.
pub open spec fn parse_id(s: Seq<char>) -> Option<u8> {
    let d = id_digits(s);
    if d.len() > 0 && all_digits(d) && dec_val(d) <= 255 {
        Some(dec_val(d) as u8)
    } else {
        None
    }
}

/// What parsing a protocol line yields.
pub open spec fn parse_model(s: Seq<char>) -> Option<ResponseView> {
    let parts = split_commas(line_core(s));
    match parse_id(parts[0]) {
        None => None,
        Some(id) => {
            let args = parts.drop_first();
            if id == 7 && args.len() >= 4 {
                Some(
                    ResponseView::Info {
                        name: args[0],
                        board_type: args[1],
                        serial: args[2],
                        version: args[3],
                    },
                )
            } else if id == 11 && args.len() >= 2 {
                Some(ResponseView::InputEvent { name: args[0], value: args[1] })
            } else {
                Some(ResponseView::Unknown(id, args))
            }
        },
    }
}

impl Response {
    /// Parses one protocol line.
    #[verifier::loop_isolation(false)]
    #[verifier::rlimit(60)]
    pub fn parse(input: &str) -> (r: Option<Response>)
        ensures
            r is Some <==> parse_model(input@) is Some,
            r matches Some(resp) ==> Some(resp@) == parse_model(input@),
    {
        let ghost s = input@;
        let n = input.unicode_len();
        proof {
            assert(s.subrange(0, n as int) =~= s);
        }
        // Trim leading whitespace.
        let mut start: usize = 0;
        while start < n && is_ws_char(input.get_char(start))
            invariant
                s == input@,
                n == s.len(),
                start <= n,
                trim_front(s) == trim_front(s.subrange(start as int, n as int)),
            decreases n - start,
        {
            proof {
                assert(s.subrange(start as int, n as int).drop_first() =~= s.subrange(
                    start as int + 1,
                    n as int,
                ));
            }
            start += 1;
        }
        proof {
            assert(trim_front(s) =~= s.subrange(start as int, n as int));
        }
        // Trim trailing whitespace.
        let mut end: usize = n;
        while end > start && is_ws_char(input.get_char(end - 1))
            invariant
                s == input@,
                n == s.len(),
                start <= end <= n,
                trim_front(s) == s.subrange(start as int, n as int),
                trim_ws(s) == trim_back(s.subrange(start as int, end as int)),
            decreases end,
        {
            proof {
                assert(s.subrange(start as int, end as int).drop_last() =~= s.subrange(
                    start as int,
                    end as int - 1,
                ));
            }
            end -= 1;
        }
        proof {
            assert(trim_ws(s) =~= s.subrange(start as int, end as int));
        }
        // Strip trailing semicolons.
        while end > start && input.get_char(end - 1) == ';'
            invariant
                s == input@,
                n == s.len(),
                start <= end <= n,
                line_core(s) == strip_semis(s.subrange(start as int, end as int)),
            decreases end,
        {
            proof {
                assert(s.subrange(start as int, end as int).drop_last() =~= s.subrange(
                    start as int,
                    end as int - 1,
                ));
            }
            end -= 1;
        }
        proof {
            assert(line_core(s) =~= s.subrange(start as int, end as int));
        }
        let ghost core = s.subrange(start as int, end as int);
        // Split the core on commas.
        let mut parts: Vec<String> = Vec::new();
        let mut seg_start: usize = start;
        let mut i: usize = start;
        while i < end
            invariant
                s == input@,
                n == s.len(),
                start <= seg_start <= i <= end <= n,
                core == s.subrange(start as int, end as int),
                forall|j: int| seg_start <= j < i ==> s[j] != ',',
                parts.deep_view() + split_commas(
                    s.subrange(seg_start as int, end as int),
                ) =~= split_commas(core),
            decreases end - i,
        {
            let c = input.get_char(i);
            if c == ',' {
                let ghost old_parts = parts.deep_view();
                let part = input.substring_char(seg_start, i).to_owned();
                parts.push(part);
                proof {
                    let seg = s.subrange(seg_start as int, end as int);
                    assert(forall|j: int|
                        0 <= j < i - seg_start ==> seg[j] == s[seg_start + j] && s[seg_start + j]
                            != ',');
                    lemma_find_comma_at(seg, i - seg_start);
                    assert(seg.take(i - seg_start) =~= s.subrange(seg_start as int, i as int));
                    assert(seg.skip(i - seg_start + 1) =~= s.subrange(i as int + 1, end as int));
                    assert(parts.deep_view() =~= old_parts.push(
                        s.subrange(seg_start as int, i as int),
                    ));
                    assert(parts.deep_view() + split_commas(
                        s.subrange(i as int + 1, end as int),
                    ) =~= split_commas(core));
                }
                seg_start = i + 1;
            }
            i += 1;
        }
        let ghost old_parts = parts.deep_view();
        let last_part = input.substring_char(seg_start, end).to_owned();
        parts.push(last_part);
        proof {
            let seg = s.subrange(seg_start as int, end as int);
            lemma_find_comma_none(seg);
            assert(split_commas(seg) =~= seq![seg]);
            assert(parts.deep_view() =~= old_parts.push(seg));
            assert(parts.deep_view() =~= split_commas(core));
        }
        // Parse the first field as the numeric id.
        let first: &String = &parts[0];
        proof {
            assert(first@ == parts.deep_view()[0]);
            assert(first@ == split_commas(core)[0]);
        }
        let m = first.as_str().unicode_len();
        let signless: usize = if m > 0 && first.as_str().get_char(0) == '+' {
            1
        } else {
            0
        };
        let ghost idd = id_digits(first@);
        proof {
            assert(idd =~= first@.subrange(signless as int, m as int));
        }
        if m == signless {
            return None;
        }
        let mut acc: u32 = 0;
        let mut k: usize = signless;
        while k < m
            invariant
                m == first@.len(),
                signless <= k <= m,
                all_digits(idd.take(k - signless)),
                acc == dec_val(idd.take(k - signless)),
                acc <= 255,
            decreases m - k,
        {
            let c = first.as_str().get_char(k);
            proof {
                assert(idd.take(k - signless + 1).drop_last() =~= idd.take(k - signless));
                assert(idd.take(k - signless + 1).last() == idd[k - signless]);
                assert(idd[k - signless] == first@[k as int]);
            }
            if !is_digit_char(c) {
                proof {
                    assert(!all_digits(idd));
                }
                return None;
            }
            let d = digit_value(c);
            let next = acc * 10 + d;
            if next > 255 {
                proof {
                    if all_digits(idd) {
                        lemma_dec_val_prefix_le(idd, k - signless + 1);
                    }
                }
                return None;
            }
            acc = next;
            k += 1;
        }
        proof {
            assert(idd.take(m - signless) =~= idd);
        }
        let id = acc as u8;
        // Collect the argument fields.
        let mut args: Vec<String> = Vec::new();
        let mut j: usize = 1;
        while j < parts.len()
            invariant
                1 <= j <= parts.len(),
                args.deep_view() =~= parts.deep_view().subrange(1, j as int),
            decreases parts.len() - j,
        {
            let ghost old_args = args.deep_view();
            args.push(parts[j].clone());
            proof {
                assert(args.deep_view() =~= old_args.push(parts.deep_view()[j as int]));
                assert(args.deep_view() =~= parts.deep_view().subrange(1, j as int + 1));
            }
            j += 1;
        }
        proof {
            assert(args.deep_view() =~= split_commas(core).drop_first());
        }
        if id == 7 && args.len() >= 4 {
            let r = Response::Info {
                name: args[0].clone(),
                board_type: args[1].clone(),
                serial: args[2].clone(),
                version: args[3].clone(),
            };
            Some(r)
        } else if id == 11 && args.len() >= 2 {
            let r = Response::InputEvent { name: args[0].clone(), value: args[1].clone() };
            Some(r)
        } else {
            Some(Response::Unknown(id, args))
        }
    }
}

/// `s` is safe to put on the wire as one field: it holds neither the field
/// separator nor the line terminator.
pub open spec fn wire_safe_str(s: Seq<char>) -> bool {
    forall|j: int| 0 <= j < s.len() ==> #[trigger] s[j] != ',' && s[j] != ';'
}

/// No character of `s` is `bad`.
pub open spec fn seq_avoids(s: Seq<char>, bad: char) -> bool {
    forall|j: int| 0 <= j < s.len() ==> #[trigger] s[j] != bad
}

/// The string arguments of the command are wire-safe. Numeric arguments
/// render to digits and are always safe.
pub open spec fn command_strings_wire_safe(c: Command) -> bool {
    match c {
        Command::SetName(name) => wire_safe_str(name@),
        Command::Set7Segment(_, _, val) => wire_safe_str(val@),
        Command::SetLCD(_, _, text) => wire_safe_str(text@),
        _ => true,
    }
}

proof fn lemma_dec_str_wire_safe(n: nat)
    ensures
        wire_safe_str(dec_str(n)),
        dec_str(n).len() >= 1,
        is_dec_digit(dec_str(n)[0]),
        !is_line_ws(dec_str(n)[0]),
{
    crate::text::lemma_dec_str_val(n);
    assert forall|j: int| 0 <= j < dec_str(n).len() implies dec_str(n)[j] != ','
        && #[trigger] dec_str(n)[j] != ';' by {
        assert(is_dec_digit(dec_str(n)[j]));
    }
}

proof fn lemma_dec_str_signed_wire_safe(v: int)
    ensures
        wire_safe_str(dec_str_signed(v)),
        dec_str_signed(v).len() >= 1,
{
    if v < 0 {
        lemma_dec_str_wire_safe((-v) as nat);
        assert forall|j: int| 0 <= j < dec_str_signed(v).len() implies dec_str_signed(v)[j] != ','
            && #[trigger] dec_str_signed(v)[j] != ';' by {
            if j == 0 {
                assert(dec_str_signed(v)[0] == '-');
            } else {
                assert(dec_str_signed(v)[j] == dec_str((-v) as nat)[j - 1]);
            }
        }
    } else {
        lemma_dec_str_wire_safe(v as nat);
    }
}

/// Every wire field of a command with wire-safe string arguments is itself
/// wire-safe, and the id field is a nonempty digit string.
proof fn lemma_wire_fields_safe(c: Command)
    requires
        command_strings_wire_safe(c),
    ensures
        forall|i: int| 0 <= i < c.wire_fields().len() ==> wire_safe_str(#[trigger] c.wire_fields()[i]),
        c.wire_fields().len() >= 1,
        c.wire_fields()[0] == dec_str(c.id_spec() as nat),
        c.wire_fields().drop_first() =~= c.args_spec(),
{
    lemma_dec_str_wire_safe(c.id_spec() as nat);
    match c {
        Command::SetName(name) => {
        },
        Command::SetPin(pin, val) => {
            lemma_dec_str_wire_safe(pin as nat);
            lemma_dec_str_wire_safe(val as nat);
        },
        Command::Set7Segment(module, index, val) => {
            lemma_dec_str_wire_safe(module as nat);
            lemma_dec_str_wire_safe(index as nat);
        },
        Command::SetLCD(display_id, line, text) => {
            lemma_dec_str_wire_safe(display_id as nat);
            lemma_dec_str_wire_safe(line as nat);
        },
        Command::SetStepper(motor_id, steps) => {
            lemma_dec_str_wire_safe(motor_id as nat);
            lemma_dec_str_signed_wire_safe(steps as int);
        },
        Command::SetRGB(led_id, r, g, b) => {
            lemma_dec_str_wire_safe(led_id as nat);
            lemma_dec_str_wire_safe(r as nat);
            lemma_dec_str_wire_safe(g as nat);
            lemma_dec_str_wire_safe(b as nat);
        },
        _ => {
        },
    }
    assert forall|i: int| 0 <= i < c.wire_fields().len() implies wire_safe_str(
        #[trigger] c.wire_fields()[i],
    ) by {
        if i > 0 {
            assert(c.wire_fields()[i] == c.args_spec()[i - 1]);
        }
    }
}

/// If no field holds `bad`, the comma-joined line holds `bad` nowhere
/// (provided `bad` is not the comma itself).
proof fn lemma_join_avoids(parts: Seq<Seq<char>>, bad: char)
    requires
        bad != ',',
        forall|i: int| 0 <= i < parts.len() ==> seq_avoids(#[trigger] parts[i], bad),
    ensures
        seq_avoids(join_commas(parts), bad),
    decreases parts.len(),
{
    if parts.len() <= 1 {
    } else {
        lemma_join_avoids(parts.drop_first(), bad);
        let p0 = parts[0];
        let rest = join_commas(parts.drop_first());
        assert forall|j: int| 0 <= j < join_commas(parts).len() implies #[trigger] join_commas(
            parts,
        )[j] != bad by {
            assert(seq_avoids(p0, bad));
            if j < p0.len() {
                assert(join_commas(parts)[j] == p0[j]);
            } else if j == p0.len() {
                assert(join_commas(parts)[j] == ',');
            } else {
                assert(join_commas(parts)[j] == rest[j - p0.len() - 1]);
            }
        }
    }
}

/// Splitting on commas undoes joining with commas, as long as no field holds
/// a comma.
proof fn lemma_split_join(parts: Seq<Seq<char>>)
    requires
        parts.len() >= 1,
        forall|i: int| 0 <= i < parts.len() ==> seq_avoids(#[trigger] parts[i], ','),
    ensures
        split_commas(join_commas(parts)) =~= parts,
    decreases parts.len(),
{
    let joined = join_commas(parts);
    if parts.len() == 1 {
        lemma_find_comma_none(joined);
        assert(split_commas(joined) =~= seq![parts[0]]);
    } else {
        lemma_split_join(parts.drop_first());
        let p0 = parts[0];
        let rest = join_commas(parts.drop_first());
        assert(joined =~= p0 + seq![','] + rest);
        assert(seq_avoids(p0, ','));
        assert(forall|j: int| 0 <= j < p0.len() ==> #[trigger] joined[j] == p0[j] && joined[j]
            != ',');
        assert(joined[p0.len() as int] == ',');
        lemma_find_comma_at(joined, p0.len() as int);
        assert(joined.take(p0.len() as int) =~= p0);
        assert(joined.skip(p0.len() as int + 1) =~= rest);
        assert(split_commas(joined) =~= seq![p0] + split_commas(rest));
        assert(split_commas(rest) =~= parts.drop_first());
        assert(split_commas(joined) =~= parts);
    }
}

/// Round trip: parsing the serialization of any command yields the
/// unclassified response that carries exactly the command's id and its
/// rendered argument fields — no command serializes into a line that a typed
/// response id claims with enough arguments.
pub proof fn lemma_serialize_parse_round_trip(c: Command)
    requires
        command_strings_wire_safe(c),
    ensures
        parse_model(c.serialize_spec()) == Some(
            ResponseView::Unknown(c.id_spec(), c.args_spec()),
        ),
{
    let fields = c.wire_fields();
    let id = c.id_spec();
    let joined = join_commas(fields);
    let line = c.serialize_spec();
    lemma_wire_fields_safe(c);
    crate::text::lemma_dec_str_val(id as nat);
    // The line starts with a digit of the id, so nothing is trimmed in front.
    assert(joined.len() >= fields[0].len()) by {
        if fields.len() >= 2 {
            assert(joined == fields[0] + seq![','] + join_commas(fields.drop_first()));
        }
    }
    assert(line[0] == fields[0][0]) by {
        if fields.len() >= 2 {
            assert(joined == fields[0] + seq![','] + join_commas(fields.drop_first()));
            assert(joined[0] == fields[0][0]);
        }
    }
    assert(!is_line_ws(line[0]));
    assert(trim_front(line) == line);
    // The line ends with the terminator, so nothing is trimmed in back.
    assert(line.last() == ';');
    assert(!is_line_ws(line.last()));
    assert(trim_back(line) == line);
    assert(trim_ws(line) == line);
    // Stripping semicolons removes exactly the terminator: no field holds one.
    assert forall|i: int| 0 <= i < fields.len() implies seq_avoids(#[trigger] fields[i], ';') by {
        assert(wire_safe_str(fields[i]));
        assert forall|j: int| 0 <= j < fields[i].len() implies #[trigger] fields[i][j] != ';' by {
            assert(fields[i][j] != ',');
        }
    }
    lemma_join_avoids(fields, ';');
    assert(seq_avoids(joined, ';'));
    assert(line.drop_last() =~= joined);
    assert(strip_semis(joined) == joined) by {
        if joined.len() > 0 {
            assert(joined.last() != ';');
        }
    }
    assert(line_core(line) == joined);
    // Splitting recovers the fields.
    assert forall|i: int| 0 <= i < fields.len() implies seq_avoids(#[trigger] fields[i], ',') by {
        assert(wire_safe_str(fields[i]));
        assert forall|j: int| 0 <= j < fields[i].len() implies #[trigger] fields[i][j] != ',' by {
            assert(fields[i][j] != ';');
        }
    }
    lemma_split_join(fields);
    let parts = split_commas(line_core(line));
    assert(parts =~= fields);
    // The id field parses back to the id.
    assert(parse_id(parts[0]) == Some(id)) by {
        assert(parts[0] == dec_str(id as nat));
        assert(is_dec_digit(dec_str(id as nat)[0]));
        assert(id_digits(dec_str(id as nat)) == dec_str(id as nat));
        assert(dec_val(dec_str(id as nat)) == id as nat);
    }
    // No command has id 7 with four arguments or id 11 with two.
    let args = parts.drop_first();
    assert(args =~= c.args_spec());
    if id == 7 {
        assert(c is GetInfo);
        assert(args.len() == 0);
    }
    assert(id != 11);
}

proof fn lemma_join_five(parts: Seq<Seq<char>>)
    requires
        parts.len() == 5,
    ensures
        join_commas(parts) =~= parts[0] + seq![','] + parts[1] + seq![','] + parts[2] + seq![',']
            + parts[3] + seq![','] + parts[4],
{
    lemma_join_four(parts.drop_first());
}

} // verus!
