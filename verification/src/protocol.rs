//! The line-oriented control-plane protocol spoken with the virtual-device
//! provider over its local socket: one newline-terminated command per
//! connection, one response line back. `OK` (with an optional `:` payload)
//! means success, `ERROR:` carries a message, a bare `PONG` answers a ping,
//! and anything else is leniently taken as a successful payload. A device
//! list payload holds `name:channel` records separated by commas or
//! newlines; a malformed channel number falls back to zero rather than
//! spoiling the rest of the list.

use vstd::prelude::*;
use crate::text::{
    chars_skip, chars_starts_with, chars_to_string, chars_trim, dec_rep, is_u32_numeral,
    parse_u32_chars, push_dec, starts_with, str_chars, trim_spec, u32_numeral_val,
};

verus! {

/// One record of the consumer's device set: a name, unique within the set,
/// and the captured channel the device taps.
#[derive(Debug, Clone)]
pub struct DeviceInfo {
    pub name: String,
    pub channel: u32,
}

/// What a response line means: the payload on success, the message on
/// failure.
pub open spec fn response_outcome(s: Seq<char>) -> Result<Seq<char>, Seq<char>> {
    if starts_with(s, "OK:"@) {
        Ok(trim_spec(s.skip(3)))
    } else if starts_with(s, "OK"@) {
        Ok(trim_spec(s.skip(2)))
    } else if starts_with(s, "ERROR:"@) {
        Err(trim_spec(s.skip(6)))
    } else if s == "PONG"@ {
        Ok("PONG"@)
    } else {
        Ok(s)
    }
}

/// Read a response line: `OK`/`OK:` yield the trimmed payload, `ERROR:`
/// yields the trimmed message as the error, `PONG` is success, and any
/// other line is leniently a successful payload, verbatim.
pub fn parse_response(response: &str) -> (r: Result<String, String>)
    ensures
        match r {
            Ok(p) => response_outcome(response@) == Ok::<Seq<char>, Seq<char>>(p@),
            Err(e) => response_outcome(response@) == Err::<Seq<char>, Seq<char>>(e@),
        },
{
    proof {
        reveal_strlit("OK:");
        reveal_strlit("OK");
        reveal_strlit("ERROR:");
    }
    let cs = str_chars(response);
    let ok_colon = str_chars("OK:");
    let ok = str_chars("OK");
    let err = str_chars("ERROR:");
    let pong = str_chars("PONG");
    if chars_starts_with(&cs, &ok_colon) {
        let rest = chars_skip(&cs, 3);
        Ok(chars_to_string(&chars_trim(&rest)))
    } else if chars_starts_with(&cs, &ok) {
        let rest = chars_skip(&cs, 2);
        Ok(chars_to_string(&chars_trim(&rest)))
    } else if chars_starts_with(&cs, &err) {
        let rest = chars_skip(&cs, 6);
        Err(chars_to_string(&chars_trim(&rest)))
    } else if crate::text::chars_eq(&cs, &pong) {
        Ok(chars_to_string(&pong))
    } else {
        Ok(chars_to_string(&cs))
    }
}

/// A ping is answered by a bare `PONG`, modulo surrounding whitespace.
pub fn is_pong(response: &str) -> (r: bool)
    ensures
        r == (trim_spec(response@) == "PONG"@),
{
    let cs = str_chars(response);
    let t = chars_trim(&cs);
    let pong = str_chars("PONG");
    crate::text::chars_eq(&t, &pong)
}

/// The pieces of a string cut at every occurrence of `c1` or `c2`, with
/// `cur` prefixed to the first piece; empty pieces are kept, as `str::split`
/// keeps them.
pub open spec fn split_acc(s: Seq<char>, cur: Seq<char>, c1: char, c2: char) -> Seq<Seq<char>>
    decreases s.len(),
{
    if s.len() == 0 {
        seq![cur]
    } else if s[0] == c1 || s[0] == c2 {
        seq![cur] + split_acc(s.skip(1), Seq::empty(), c1, c2)
    } else {
        split_acc(s.skip(1), cur.push(s[0]), c1, c2)
    }
}

pub open spec fn split_on(s: Seq<char>, c1: char, c2: char) -> Seq<Seq<char>> {
    split_acc(s, Seq::empty(), c1, c2)
}

/// Cut a character run at every occurrence of `c1` or `c2`.
pub fn split_chars(v: &Vec<char>, c1: char, c2: char) -> (r: Vec<Vec<char>>)
    ensures
        r@.map_values(|e: Vec<char>| e@) == split_on(v@, c1, c2),
{
    let n = v.len();
    let mut out: Vec<Vec<char>> = Vec::new();
    let mut cur: Vec<char> = Vec::new();
    let mut i: usize = 0;
    proof {
        assert(v@.skip(0) =~= v@);
    }
    while i < n
        invariant
            i <= n,
            n == v@.len(),
            split_on(v@, c1, c2) == out@.map_values(|e: Vec<char>| e@) + split_acc(
                v@.skip(i as int),
                cur@,
                c1,
                c2,
            ),
        decreases n - i,
    {
        let ghost rest: Seq<char> = v@.skip(i as int);
        proof {
            assert(rest.skip(1) =~= v@.skip(i as int + 1));
        }
        let c = v[i];
        assert(c == rest[0]);
        if c == c1 || c == c2 {
            let ghost out0: Seq<Vec<char>> = out@;
            let ghost cur0: Seq<char> = cur@;
            out.push(cur);
            cur = Vec::new();
            proof {
                assert(split_acc(rest, cur0, c1, c2) == seq![cur0] + split_acc(
                    rest.skip(1),
                    Seq::empty(),
                    c1,
                    c2,
                ));
                assert(out@.map_values(|e: Vec<char>| e@) =~= out0.map_values(|e: Vec<char>| e@)
                    + seq![cur0]);
                assert(out@.map_values(|e: Vec<char>| e@) + split_acc(
                    v@.skip(i as int + 1),
                    cur@,
                    c1,
                    c2,
                ) =~= split_on(v@, c1, c2));
            }
        } else {
            proof {
                assert(split_acc(rest, cur@, c1, c2) == split_acc(
                    rest.skip(1),
                    cur@.push(c),
                    c1,
                    c2,
                ));
            }
            cur.push(c);
        }
        i = i + 1;
    }
    proof {
        assert(v@.skip(n as int) =~= Seq::<char>::empty());
    }
    let ghost out0: Seq<Vec<char>> = out@;
    out.push(cur);
    proof {
        assert(out@.map_values(|e: Vec<char>| e@) =~= out0.map_values(|e: Vec<char>| e@)
            + seq![cur@]);
    }
    out
}

/// The channel number of a record: what `str::parse::<u32>` accepts, and
/// zero for anything malformed — the lenient fallback that keeps the rest
/// of a partially damaged list.
pub open spec fn parse_or_zero(s: Seq<char>) -> u32 {
    if is_u32_numeral(s) {
        u32_numeral_val(s) as u32
    } else {
        0
    }
}

/// The record one list entry yields: trim it, drop it if empty, cut it at
/// every colon, and take the first piece as the name and the second as the
/// channel; an entry without a colon yields nothing.
pub open spec fn record_of_entry(e: Seq<char>) -> Option<(Seq<char>, u32)> {
    let t = trim_spec(e);
    if t.len() == 0 {
        None
    } else {
        let ps = split_on(t, ':', ':');
        if ps.len() >= 2 {
            Some((ps[0], parse_or_zero(ps[1])))
        } else {
            None
        }
    }
}

pub open spec fn records_of(entries: Seq<Seq<char>>) -> Seq<(Seq<char>, u32)>
    decreases entries.len(),
{
    if entries.len() == 0 {
        Seq::empty()
    } else {
        match record_of_entry(entries[0]) {
            Some(r) => seq![r] + records_of(entries.skip(1)),
            None => records_of(entries.skip(1)),
        }
    }
}

/// The records of a device-list payload: entries separated by commas or
/// newlines; an empty payload or a bare `OK` is an empty list.
pub open spec fn device_list_spec(message: Seq<char>) -> Seq<(Seq<char>, u32)> {
    if message.len() == 0 || message == "OK"@ {
        Seq::empty()
    } else {
        records_of(split_on(message, ',', '\n'))
    }
}

proof fn lemma_records_of_single(e: Seq<char>)
    ensures
        records_of(seq![e]) == match record_of_entry(e) {
            Some(r) => seq![r],
            None => Seq::<(Seq<char>, u32)>::empty(),
        },
{
    assert(seq![e].skip(1) =~= Seq::<Seq<char>>::empty());
    assert(records_of(Seq::<Seq<char>>::empty()) == Seq::<(Seq<char>, u32)>::empty());
    match record_of_entry(e) {
        Some(r) => {
            assert(records_of(seq![e]) =~= seq![r]);
        },
        None => {},
    }
}

proof fn lemma_records_of_concat(a: Seq<Seq<char>>, b: Seq<Seq<char>>)
    ensures
        records_of(a + b) == records_of(a) + records_of(b),
    decreases a.len(),
{
    if a.len() == 0 {
        assert(a + b =~= b);
        assert(records_of(a) + records_of(b) =~= records_of(b));
    } else {
        lemma_records_of_concat(a.skip(1), b);
        assert((a + b).skip(1) =~= a.skip(1) + b);
        assert((a + b)[0] == a[0]);
        match record_of_entry(a[0]) {
            Some(r) => {
                assert(seq![r] + (records_of(a.skip(1)) + records_of(b)) =~= (seq![r] + records_of(
                    a.skip(1),
                )) + records_of(b));
            },
            None => {},
        }
    }
}

/// Parse a device-list payload. Records are separated by `,` or newline,
/// each `name:channel`; a malformed channel defaults to zero, and no
/// payload makes the parse fail as a whole.
pub fn parse_device_list(message: &str) -> (r: Vec<DeviceInfo>)
    ensures
        r@.map_values(|d: DeviceInfo| (d.name@, d.channel)) == device_list_spec(message@),
{
    let cs = str_chars(message);
    let ok = str_chars("OK");
    if cs.len() == 0 || crate::text::chars_eq(&cs, &ok) {
        let r: Vec<DeviceInfo> = Vec::new();
        assert(r@.map_values(|d: DeviceInfo| (d.name@, d.channel)) =~= device_list_spec(
            message@,
        ));
        return r;
    }
    let entries = split_chars(&cs, ',', '\n');
    let ghost especs: Seq<Seq<char>> = entries@.map_values(|e: Vec<char>| e@);
    let mut out: Vec<DeviceInfo> = Vec::new();
    let n = entries.len();
    let mut i: usize = 0;
    proof {
        assert(especs.take(0) =~= Seq::<Seq<char>>::empty());
    }
    while i < n
        invariant
            i <= n,
            n == entries@.len(),
            especs == entries@.map_values(|e: Vec<char>| e@),
            out@.map_values(|d: DeviceInfo| (d.name@, d.channel)) == records_of(
                especs.take(i as int),
            ),
        decreases n - i,
    {
        let entry = &entries[i];
        let ghost eview: Seq<char> = especs[i as int];
        let ghost f = |d: DeviceInfo| (d.name@, d.channel);
        proof {
            assert(eview == entry@);
            assert(especs.take(i as int + 1) =~= especs.take(i as int) + seq![eview]);
            lemma_records_of_concat(especs.take(i as int), seq![eview]);
            lemma_records_of_single(eview);
        }
        let ghost before: Seq<DeviceInfo> = out@;
        let t = chars_trim(entry);
        if t.len() > 0 {
            let parts = split_chars(&t, ':', ':');
            if parts.len() >= 2 {
                assert(parts@.map_values(|e: Vec<char>| e@)[0] == parts@[0]@);
                assert(parts@.map_values(|e: Vec<char>| e@)[1] == parts@[1]@);
                let name = chars_to_string(&parts[0]);
                let channel = match parse_u32_chars(&parts[1]) {
                    Some(v) => v,
                    None => 0,
                };
                let ghost rec: (Seq<char>, u32) = (name@, channel);
                proof {
                    assert(record_of_entry(eview) == Some(rec));
                }
                out.push(DeviceInfo { name, channel });
                proof {
                    assert(records_of(seq![eview]) == seq![rec]);
                    assert(out@.map_values(f) =~= before.map_values(f) + seq![rec]);
                    assert(out@.map_values(f) == records_of(especs.take(i as int + 1)));
                }
            } else {
                proof {
                    assert(record_of_entry(eview) is None);
                    assert(out@.map_values(f) =~= records_of(especs.take(i as int + 1)));
                }
            }
        } else {
            proof {
                assert(record_of_entry(eview) is None);
                assert(out@.map_values(f) =~= records_of(especs.take(i as int + 1)));
            }
        }
        i = i + 1;
    }
    proof {
        assert(especs.take(n as int) =~= especs);
    }
    out
}

/// The `ADD` command line for a device record (without the trailing
/// newline): `ADD name:channel` with the channel in decimal.
pub fn add_command(name: &str, channel: u32) -> (r: String)
    ensures
        r@ == "ADD "@ + name@ + ":"@ + dec_rep(channel as nat),
{
    proof {
        reveal_strlit(":");
    }
    let mut v = str_chars("ADD ");
    let mut nm = str_chars(name);
    v.append(&mut nm);
    v.push(':');
    let ghost head: Seq<char> = v@;
    push_dec(channel as u64, &mut v);
    proof {
        assert(head =~= "ADD "@ + name@ + ":"@);
        assert("ADD "@ + name@ + ":"@ + dec_rep(channel as nat) =~= head + dec_rep(
            channel as nat,
        ));
    }
    chars_to_string(&v)
}

/// The `REMOVE` command line for a device name (without the trailing
/// newline).
pub fn remove_command(name: &str) -> (r: String)
    ensures
        r@ == "REMOVE "@ + name@,
{
    let mut v = str_chars("REMOVE ");
    let mut nm = str_chars(name);
    v.append(&mut nm);
    chars_to_string(&v)
}

} // verus!
