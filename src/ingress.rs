//! Framing of sensor messages: `identity|address|lat|lon|is_source|range`.
use vstd::prelude::*;

verus! {

/// The fields of `s` between `|` delimiters, empty ones included; a text
/// without a delimiter is a single field.
pub open spec fn split_bar(s: Seq<char>) -> Seq<Seq<char>>
    decreases s.len(),
{
    if s.len() == 0 {
        seq![Seq::<char>::empty()]
    } else {
        let f = split_bar(s.drop_last());
        if s.last() == '|' {
            f.push(Seq::<char>::empty())
        } else {
            f.update(f.len() - 1, f.last().push(s.last()))
        }
    }
}

/// The value of a flag field: exactly `true` or `false`.
pub open spec fn flag_value(s: Seq<char>) -> Option<bool> {
    if s == seq!['t', 'r', 'u', 'e'] {
        Some(true)
    } else if s == seq!['f', 'a', 'l', 's', 'e'] {
        Some(false)
    } else {
        None
    }
}

/// A sensor message cut into its fields. The numeric fields stay text:
/// they are read as decimal numbers by the caller.
pub struct SensorMessage {
    pub identity: String,
    pub address: String,
    pub lat: String,
    pub lon: String,
    pub is_target_source: bool,
    pub range: String,
}

/// The message that `s` frames: six fields, the fifth a flag.
pub open spec fn message_of(s: Seq<char>, m: SensorMessage) -> bool {
    let f = split_bar(s);
    &&& f.len() == 6
    &&& m.identity@ == f[0]
    &&& m.address@ == f[1]
    &&& m.lat@ == f[2]
    &&& m.lon@ == f[3]
    &&& flag_value(f[4]) == Some(m.is_target_source)
    &&& m.range@ == f[5]
}

pub open spec fn is_framed(s: Seq<char>) -> bool {
    split_bar(s).len() == 6 && flag_value(split_bar(s)[4]) is Some
}

/// Reads a flag field.
pub fn parse_flag(s: &str) -> (r: Option<bool>)
    ensures
        r == flag_value(s@),
{
    let t = String::from_str(s);
    let yes = String::from_str("true");
    let no = String::from_str("false");
    proof {
        reveal_strlit("true");
        reveal_strlit("false");
        assert("true"@ =~= seq!['t', 'r', 'u', 'e']);
        assert("false"@ =~= seq!['f', 'a', 'l', 's', 'e']);
    }
    if t == yes {
        Some(true)
    } else if t == no {
        Some(false)
    } else {
        None
    }
}

/// Cuts `s` at every `|`.
pub fn split_fields(s: &str) -> (r: Vec<String>)
    ensures
        r@.map_values(|f: String| f@) == split_bar(s@),
{
    let n = s.unicode_len();
    let mut fields: Vec<String> = Vec::new();
    let mut start: usize = 0;
    let mut i: usize = 0;
    proof {
        assert(s@.subrange(0, 0) =~= Seq::<char>::empty());
        assert(fields@.map_values(|f: String| f@).push(s@.subrange(0, 0)) =~= seq![
            Seq::<char>::empty(),
        ]);
    }
    while i < n
        invariant
            n == s@.len(),
            0 <= start <= i <= n,
            fields@.map_values(|f: String| f@).push(s@.subrange(start as int, i as int))
                == split_bar(s@.subrange(0, i as int)),
        decreases n - i,
    {
        let c = s.get_char(i);
        let ghost pre = s@.subrange(0, i as int);
        let ghost next = s@.subrange(0, i + 1);
        let ghost before = fields@.map_values(|f: String| f@);
        let ghost old_start = start;
        proof {
            assert(next.drop_last() =~= pre);
            assert(next.last() == c);
        }
        if c == '|' {
            let piece = String::from_str(s.substring_char(start, i));
            fields.push(piece);
            start = i + 1;
            proof {
                assert(fields@.map_values(|f: String| f@) =~= before.push(
                    s@.subrange(old_start as int, i as int),
                ));
            }
        }
        proof {
            let f = split_bar(pre);
            assert(f == before.push(s@.subrange(old_start as int, i as int)));
            if c != '|' {
                assert(s@.subrange(start as int, i + 1) =~= s@.subrange(start as int, i as int).push(c));
                assert(split_bar(next) == f.update(f.len() - 1, f.last().push(c)));
            } else {
                assert(s@.subrange(start as int, i + 1) =~= Seq::<char>::empty());
                assert(split_bar(next) == f.push(Seq::<char>::empty()));
            }
            assert(fields@.map_values(|f: String| f@).push(s@.subrange(start as int, i + 1))
                =~= split_bar(next));
        }
        i += 1;
    }
    let last = String::from_str(s.substring_char(start, n));
    fields.push(last);
    proof {
        assert(s@.subrange(0, n as int) =~= s@);
        assert(fields@.map_values(|f: String| f@) =~= split_bar(s@));
    }
    fields
}

/// Cuts a sensor message into its six fields, or `None` where it does
/// not have exactly six or the fifth is not a flag.
pub fn parse_message(s: &str) -> (r: Option<SensorMessage>)
    ensures
        r is Some <==> is_framed(s@),
        r matches Some(m) ==> message_of(s@, m),
{
    let mut fields = split_fields(s);
    let ghost f = split_bar(s@);
    if fields.len() != 6 {
        return None;
    }
    let flag = parse_flag(fields[4].as_str());
    proof {
        assert(fields@[4]@ == f[4]);
    }
    match flag {
        None => None,
        Some(is_target_source) => {
            let range = fields.pop().unwrap();
            let _flag_text = fields.pop().unwrap();
            let lon = fields.pop().unwrap();
            let lat = fields.pop().unwrap();
            let address = fields.pop().unwrap();
            let identity = fields.pop().unwrap();
            Some(SensorMessage { identity, address, lat, lon, is_target_source, range })
        },
    }
}

} // verus!
