//! Firmware-flashing support: board parameters, the flasher's argument list,
//! and progress parsing. Running the external flasher process is the
//! caller's business.
use crate::decstr::{dec_str, u64_to_string};
use crate::text::{all_digits, dec_val, digit_value, is_dec_digit, is_digit_char};
use vstd::prelude::*;

verus! {

/// Supported board types for flashing.
#[derive(Debug, Clone, PartialEq, Eq, Structural)]
pub enum BoardType {
    ArduinoMega,
    ArduinoProMicro,
    ArduinoNano,
}

impl BoardType {
    /// The flasher's part name for this board.
    pub open spec fn avrdude_part_spec(self) -> Seq<char> {
        match self {
            BoardType::ArduinoMega => "atmega2560"@,
            BoardType::ArduinoProMicro => "atmega32u4"@,
            BoardType::ArduinoNano => "atmega328p"@,
        }
    }

    /// The flasher's programmer name for this board.
    pub open spec fn avrdude_programmer_spec(self) -> Seq<char> {
        match self {
            BoardType::ArduinoMega => "wiring"@,
            BoardType::ArduinoProMicro => "avr109"@,
            BoardType::ArduinoNano => "arduino"@,
        }
    }

    /// The baud rate at which this board is flashed.
    pub open spec fn baud_rate_spec(self) -> u32 {
        match self {
            BoardType::ArduinoMega => 115200,
            BoardType::ArduinoProMicro => 57600,
            BoardType::ArduinoNano => 57600,
        }
    }

    /// The firmware file name for this board.
    pub open spec fn firmware_name_spec(self) -> Seq<char> {
        match self {
            BoardType::ArduinoMega => "mobiflight_mega.hex"@,
            BoardType::ArduinoProMicro => "mobiflight_promicro.hex"@,
            BoardType::ArduinoNano => "mobiflight_nano.hex"@,
        }
    }

    /// The flasher's part name for this board.
    pub fn avrdude_part(&self) -> (r: &'static str)
        ensures
            r@ == self.avrdude_part_spec(),
    {
        match self {
            BoardType::ArduinoMega => "atmega2560",
            BoardType::ArduinoProMicro => "atmega32u4",
            BoardType::ArduinoNano => "atmega328p",
        }
    }

    /// The flasher's programmer name for this board.
    pub fn avrdude_programmer(&self) -> (r: &'static str)
        ensures
            r@ == self.avrdude_programmer_spec(),
    {
        match self {
            BoardType::ArduinoMega => "wiring",
            BoardType::ArduinoProMicro => "avr109",
            BoardType::ArduinoNano => "arduino",
        }
    }

    /// The baud rate at which this board is flashed.
    pub fn baud_rate(&self) -> (r: u32)
        ensures
            r == self.baud_rate_spec(),
    {
        match self {
            BoardType::ArduinoMega => 115200,
            BoardType::ArduinoProMicro => 57600,
            BoardType::ArduinoNano => 57600,
        }
    }

    /// The firmware file name for this board.
    pub fn firmware_name(&self) -> (r: &'static str)
        ensures
            r@ == self.firmware_name_spec(),
    {
        match self {
            BoardType::ArduinoMega => "mobiflight_mega.hex",
            BoardType::ArduinoProMicro => "mobiflight_promicro.hex",
            BoardType::ArduinoNano => "mobiflight_nano.hex",
        }
    }
}

/// The flasher's argument list for one flash run.
pub open spec fn avrdude_args_spec(port: Seq<char>, board: BoardType, firmware_path: Seq<
    char,
>) -> Seq<Seq<char>> {
    seq![
        "-v"@,
        "-p"@,
        board.avrdude_part_spec(),
        "-c"@,
        board.avrdude_programmer_spec(),
        "-P"@,
        port,
        "-b"@,
        dec_str(board.baud_rate_spec() as nat),
        "-D"@,
        "-U"@,
        "flash:w:"@ + firmware_path + ":i"@,
    ]
}

/// Builds the flasher's argument list for one flash run.
pub fn avrdude_args(port: &str, board: &BoardType, firmware_path: &str) -> (r: Vec<String>)
    ensures
        r.deep_view() == avrdude_args_spec(port@, *board, firmware_path@),
{
    proof {
        reveal_strlit("flash:w:");
        reveal_strlit(":i");
    }
    let mut flash_arg = String::from_str("flash:w:");
    flash_arg.append(firmware_path);
    flash_arg.append(":i");
    let mut args: Vec<String> = Vec::new();
    args.push(String::from_str("-v"));
    args.push(String::from_str("-p"));
    args.push(String::from_str(board.avrdude_part()));
    args.push(String::from_str("-c"));
    args.push(String::from_str(board.avrdude_programmer()));
    args.push(String::from_str("-P"));
    args.push(port.to_owned());
    args.push(String::from_str("-b"));
    args.push(u64_to_string(board.baud_rate() as u64));
    args.push(String::from_str("-D"));
    args.push(String::from_str("-U"));
    args.push(flash_arg);
    proof {
        assert(args.deep_view() =~= avrdude_args_spec(port@, *board, firmware_path@));
    }
    args
}

/// The start of the run of digits that ends just before position `p`.
pub open spec fn digits_run_start(s: Seq<char>, p: int) -> int
    decreases p,
{
    if p <= 0 {
        0
    } else if is_dec_digit(s[p - 1]) {
        digits_run_start(s, p - 1)
    } else {
        p
    }
}

/// The index of the last `%` of `s`, or `-1` if there is none.
pub open spec fn last_percent(s: Seq<char>) -> int
    decreases s.len(),
{
    if s.len() == 0 {
        -1
    } else if s.last() == '%' {
        s.len() - 1
    } else {
        last_percent(s.drop_last())
    }
}

/// The progress percentage a flasher output line reports: the digits directly
/// before its last `%`, when there are any and they fit.
pub open spec fn progress_percent(s: Seq<char>) -> Option<u8> {
    let p = last_percent(s);
    if p < 0 {
        None
    } else {
        let start = digits_run_start(s, p);
        if start < p && dec_val(s.subrange(start, p)) <= 255 {
            Some(dec_val(s.subrange(start, p)) as u8)
        } else {
            None
        }
    }
}

/// Reads the progress percentage from one flasher output line.
#[verifier::loop_isolation(false)]
pub fn parse_progress(line: &str) -> (r: Option<u8>)
    ensures
        r == progress_percent(line@),
{
    let n = line.unicode_len();
    proof {
        assert(line@.take(n as int) =~= line@);
    }
    // Find the last percent sign.
    let mut p: usize = n;
    while p > 0 && line.get_char(p - 1) != '%'
        invariant
            p <= n,
            n == line@.len(),
            last_percent(line@) == last_percent(line@.take(p as int)),
        decreases p,
    {
        proof {
            assert(line@.take(p as int).drop_last() =~= line@.take(p as int - 1));
        }
        p -= 1;
    }
    if p == 0 {
        proof {
            assert(line@.take(0) =~= Seq::<char>::empty());
        }
        return None;
    }
    let pct = p - 1;
    proof {
        assert(line@.take(p as int).last() == line@[pct as int]);
        assert(last_percent(line@) == pct);
    }
    // Walk back over the digits directly before it.
    let mut start: usize = pct;
    while start > 0 && is_digit_char(line.get_char(start - 1))
        invariant
            start <= pct,
            digits_run_start(line@, pct as int) == digits_run_start(line@, start as int),
            all_digits(line@.subrange(start as int, pct as int)),
        decreases start,
    {
        proof {
            let sub = line@.subrange(start as int - 1, pct as int);
            assert forall|j: int| 0 <= j < sub.len() implies is_dec_digit(#[trigger] sub[j]) by {
                if j == 0 {
                    assert(sub[0] == line@[start as int - 1]);
                } else {
                    assert(sub[j] == line@.subrange(start as int, pct as int)[j - 1]);
                }
            }
            assert(all_digits(sub));
        }
        start -= 1;
    }
    proof {
        assert(digits_run_start(line@, pct as int) == start);
    }
    if start == pct {
        return None;
    }
    // Parse the digit run.
    let ghost digits = line@.subrange(start as int, pct as int);
    let mut acc: u32 = 0;
    let mut k: usize = start;
    while k < pct
        invariant
            start <= k <= pct,
            acc == dec_val(line@.subrange(start as int, k as int)),
            acc <= 255,
        decreases pct - k,
    {
        let c = line.get_char(k);
        proof {
            assert(line@.subrange(start as int, k as int + 1).drop_last() =~= line@.subrange(
                start as int,
                k as int,
            ));
            assert(line@.subrange(start as int, k as int + 1).last() == line@[k as int]);
            assert(line@[k as int] == digits[k - start]);
        }
        let d = digit_value(c);
        let next = acc * 10 + d;
        if next > 255 {
            proof {
                crate::text::lemma_dec_val_prefix_le(digits, k as int + 1 - start);
                assert(digits.take(k as int + 1 - start) =~= line@.subrange(
                    start as int,
                    k as int + 1,
                ));
            }
            return None;
        }
        acc = next;
        k += 1;
    }
    Some(acc as u8)
}

} // verus!
