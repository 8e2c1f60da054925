//! What a press of Connect asks for: which transport to open, with which
//! parameters, from the text in the settings fields.

use vstd::prelude::*;
use vstd::slice::slice_subrange;
use vstd::string::{StrSliceExecFns, StringSliceAdditionalSpecFns};
use vstd::utf8::encode_utf8;
use crate::config::value_or;
use crate::number::{all_digits, digits_value, is_digit};

verus! {

#[derive(Clone, Copy, Debug, PartialEq, Eq, Structural)]
pub enum ConnectionMode {
    Serial,
    Tcp,
}

/// A transport to open.
#[derive(Debug)]
pub enum ConnectionTarget {
    Serial { port_name: String, baud_rate: u32 },
    Tcp { host: String, port: u16 },
}

#[derive(Clone, Copy, Debug, PartialEq, Eq, Structural)]
pub enum ConnectError {
    /// Serial mode with no port name given.
    MissingPortName,
    /// TCP mode with no host given.
    MissingHost,
}

/// A character with the Unicode White_Space property.
pub open spec fn is_white_space(c: char) -> bool {
    let v = c as u32;
    ||| 9 <= v <= 13
    ||| v == 32
    ||| v == 0x85
    ||| v == 0xA0
    ||| v == 0x1680
    ||| 0x2000 <= v <= 0x200A
    ||| v == 0x2028
    ||| v == 0x2029
    ||| v == 0x202F
    ||| v == 0x205F
    ||| v == 0x3000
}

pub open spec fn trim_white_start(s: Seq<char>) -> Seq<char>
    decreases s.len(),
{
    if s.len() > 0 && is_white_space(s[0]) {
        trim_white_start(s.drop_first())
    } else {
        s
    }
}

pub open spec fn trim_white_end(s: Seq<char>) -> Seq<char>
    decreases s.len(),
{
    if s.len() > 0 && is_white_space(s.last()) {
        trim_white_end(s.drop_last())
    } else {
        s
    }
}

/// `s` without its leading and trailing white space.
pub open spec fn trim_white(s: Seq<char>) -> Seq<char> {
    trim_white_end(trim_white_start(s))
}

fn is_white(c: char) -> (r: bool)
    ensures
        r == is_white_space(c),
{
    let v = c as u32;
    (9 <= v && v <= 13) || v == 32 || v == 0x85 || v == 0xA0 || v == 0x1680 || (0x2000 <= v && v
        <= 0x200A) || v == 0x2028 || v == 0x2029 || v == 0x202F || v == 0x205F || v == 0x3000
}

/// The text without its leading and trailing white space, as `str::trim`
/// gives it.
pub fn trim_text(s: &str) -> (r: &str)
    ensures
        r@ == trim_white(s@),
{
    let n = s.unicode_len();
    let mut lo: usize = 0;
    proof {
        assert(s@.subrange(0, n as int) =~= s@);
    }
    while lo < n && is_white(s.get_char(lo))
        invariant
            n == s@.len(),
            lo <= n,
            trim_white_start(s@) == trim_white_start(s@.subrange(lo as int, n as int)),
        decreases n - lo,
    {
        proof {
            assert(s@.subrange(lo as int, n as int).drop_first() =~= s@.subrange(lo + 1, n as int));
        }
        lo += 1;
    }
    let mut hi: usize = n;
    while hi > lo && is_white(s.get_char(hi - 1))
        invariant
            n == s@.len(),
            lo <= hi <= n,
            trim_white_start(s@) == s@.subrange(lo as int, n as int),
            trim_white(s@) == trim_white_end(s@.subrange(lo as int, hi as int)),
        decreases hi - lo,
    {
        proof {
            assert(s@.subrange(lo as int, hi as int).drop_last() =~= s@.subrange(lo as int, hi - 1));
        }
        hi -= 1;
    }
    s.substring_char(lo, hi)
}

/// An unsigned decimal as std reads one: an optional `+`, then one or more
/// digits.
pub open spec fn unsigned_text_value(t: Seq<u8>) -> Option<int> {
    let d = if t.len() > 0 && t[0] == 43 {
        t.drop_first()
    } else {
        t
    };
    if d.len() > 0 && all_digits(d) {
        Some(digits_value(d))
    } else {
        None
    }
}

pub open spec fn fit_u32(v: Option<int>) -> Option<u32> {
    match v {
        Some(x) => if 0 <= x <= u32::MAX {
            Some(x as u32)
        } else {
            None
        },
        None => None,
    }
}

pub open spec fn fit_u16(v: Option<int>) -> Option<u16> {
    match v {
        Some(x) => if 0 <= x <= u16::MAX {
            Some(x as u16)
        } else {
            None
        },
        None => None,
    }
}

/// Reads an unsigned decimal that fits in `u32`.
pub fn parse_u32_text(t: &[u8]) -> (r: Option<u32>)
    ensures
        r == fit_u32(unsigned_text_value(t@)),
{
    let n = t.len();
    let start: usize = if n > 0 && t[0] == 43 {
        1
    } else {
        0
    };
    let d = slice_subrange(t, start, n);
    proof {
        assert(d@ =~= (if t@.len() > 0 && t@[0] == 43 {
            t@.drop_first()
        } else {
            t@
        }));
    }
    let m = d.len();
    if m == 0 {
        return None;
    }
    let mut i: usize = 0;
    let mut v: u64 = 0;
    let mut fits = true;
    while i < m
        invariant
            m == d@.len(),
            i <= m,
            d@ == (if t@.len() > 0 && t@[0] == 43 {
                t@.drop_first()
            } else {
                t@
            }),
            all_digits(d@.subrange(0, i as int)),
            fits ==> v == digits_value(d@.subrange(0, i as int)) && v <= u32::MAX,
            !fits ==> digits_value(d@.subrange(0, i as int)) > u32::MAX,
        decreases m - i,
    {
        let b = d[i];
        if b < 48 || b > 57 {
            proof {
                assert(!is_digit(d@[i as int]));
            }
            return None;
        }
        proof {
            assert(d@.subrange(0, i + 1).drop_last() =~= d@.subrange(0, i as int));
            assert(all_digits(d@.subrange(0, i + 1)));
            lemma_digits_grow(d@, i as int);
        }
        if fits {
            let w = v * 10 + (b - 48) as u64;
            if w <= u32::MAX as u64 {
                v = w;
            } else {
                fits = false;
            }
        }
        i += 1;
    }
    proof {
        assert(d@.subrange(0, m as int) =~= d@);
    }
    if fits {
        Some(v as u32)
    } else {
        None
    }
}

proof fn lemma_digits_grow(d: Seq<u8>, i: int)
    requires
        0 <= i < d.len(),
        all_digits(d.subrange(0, i)),
        48 <= d[i] <= 57,
    ensures
        digits_value(d.subrange(0, i + 1)) == digits_value(d.subrange(0, i)) * 10 + (d[i] - 48),
        digits_value(d.subrange(0, i + 1)) >= digits_value(d.subrange(0, i)),
{
    assert(d.subrange(0, i + 1).drop_last() =~= d.subrange(0, i));
    crate::number::lemma_digits_nonneg(d.subrange(0, i));
}

/// The transport to open in `mode`: the trimmed port name with the baud rate
/// read from its field, or the trimmed host with the port read from its field;
/// a number that cannot be read falls back to the configured one.
pub fn plan_connection(
    mode: ConnectionMode,
    port_text: &str,
    baud_text: &str,
    host_text: &str,
    tcp_port_text: &str,
    default_baud: u32,
    default_port: u16,
) -> (r: Result<ConnectionTarget, ConnectError>)
    ensures
        mode == ConnectionMode::Serial ==> (match r {
            Ok(ConnectionTarget::Serial { port_name, baud_rate }) => {
                &&& trim_white(port_text@).len() > 0
                &&& port_name@ == trim_white(port_text@)
                &&& baud_rate == value_or(
                    fit_u32(unsigned_text_value(encode_utf8(trim_white(baud_text@)))),
                    default_baud,
                )
            },
            Err(e) => e == ConnectError::MissingPortName && trim_white(port_text@).len() == 0,
            _ => false,
        }),
        mode == ConnectionMode::Tcp ==> (match r {
            Ok(ConnectionTarget::Tcp { host, port }) => {
                &&& trim_white(host_text@).len() > 0
                &&& host@ == trim_white(host_text@)
                &&& port == value_or(
                    fit_u16(unsigned_text_value(encode_utf8(trim_white(tcp_port_text@)))),
                    default_port,
                )
            },
            Err(e) => e == ConnectError::MissingHost && trim_white(host_text@).len() == 0,
            _ => false,
        }),
{
    match mode {
        ConnectionMode::Serial => {
            let port = trim_text(port_text);
            if port.is_empty() {
                return Err(ConnectError::MissingPortName);
            }
            let baud = match parse_u32_text(trim_text(baud_text).as_bytes()) {
                Some(b) => b,
                None => default_baud,
            };
            Ok(ConnectionTarget::Serial { port_name: port.to_owned(), baud_rate: baud })
        },
        ConnectionMode::Tcp => {
            let host = trim_text(host_text);
            if host.is_empty() {
                return Err(ConnectError::MissingHost);
            }
            let port = match parse_u32_text(trim_text(tcp_port_text).as_bytes()) {
                Some(p) => if p <= u16::MAX as u32 {
                    p as u16
                } else {
                    default_port
                },
                None => default_port,
            };
            Ok(ConnectionTarget::Tcp { host: host.to_owned(), port })
        },
    }
}

} // verus!
