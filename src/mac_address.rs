use crate::error::Error;
use vstd::prelude::*;

verus! {

/// A 48-bit link-layer hardware address.
#[derive(Clone, Copy, Eq, Hash, Debug)]
pub struct MacAddress(pub [u8; 6]);

impl PartialEq for MacAddress {
    fn eq(&self, o: &MacAddress) -> (r: bool) {
        let mut i: usize = 0;
        while i < 6
            invariant
                i <= 6,
                forall|j: int| 0 <= j < i ==> self.0@[j] == o.0@[j],
            decreases 6 - i,
        {
            if self.0[i] != o.0[i] {
                return false;
            }
            i = i + 1;
        }
        assert(self.0@ =~= o.0@);
        true
    }
}

impl vstd::std_specs::cmp::PartialEqSpecImpl for MacAddress {
    open spec fn obeys_eq_spec() -> bool {
        true
    }

    open spec fn eq_spec(&self, o: &MacAddress) -> bool {
        self.0@ == o.0@
    }
}

/// The value of one hexadecimal digit, in either case.
pub open spec fn hex_digit_value(c: char) -> Option<nat> {
    if '0' <= c && c <= '9' {
        Some((c as int - '0' as int) as nat)
    } else if 'a' <= c && c <= 'f' {
        Some((c as int - 'a' as int + 10) as nat)
    } else if 'A' <= c && c <= 'F' {
        Some((c as int - 'A' as int + 10) as nat)
    } else {
        None
    }
}

/// Whether every character of `d` is a hexadecimal digit.
pub open spec fn all_hex(d: Seq<char>) -> bool {
    forall|i: int| 0 <= i < d.len() ==> (#[trigger] hex_digit_value(d[i])) is Some
}

/// The number that a sequence of hexadecimal digits denotes.
pub open spec fn hex_number(d: Seq<char>) -> nat
    decreases d.len(),
{
    if d.len() == 0 {
        0
    } else {
        hex_number(d.drop_last()) * 16 + hex_digit_value(d.last()).unwrap_or(0)
    }
}

/// An octet written in base 16: an optional `+`, then at least one digit, of
/// value at most 255 (leading zeros are allowed).
pub open spec fn parse_octet(f: Seq<char>) -> Option<u8> {
    let d = if f.len() > 0 && f[0] == '+' { f.drop_first() } else { f };
    if d.len() > 0 && all_hex(d) && hex_number(d) <= 255 {
        Some(hex_number(d) as u8)
    } else {
        None
    }
}

/// The pieces of `s` between colons, from left to right; a text without a
/// colon is one piece.
pub open spec fn split_colons(s: Seq<char>) -> Seq<Seq<char>>
    decreases s.len(),
{
    if s.len() == 0 {
        seq![Seq::<char>::empty()]
    } else {
        let init = split_colons(s.drop_last());
        if s.last() == ':' {
            init.push(Seq::<char>::empty())
        } else {
            init.update(init.len() - 1, init.last().push(s.last()))
        }
    }
}

/// The octets that `s` denotes, when it is exactly six colon-separated octets.
pub open spec fn parse_mac(s: Seq<char>) -> Option<Seq<u8>> {
    let fs = split_colons(s);
    if fs.len() == 6 && forall|k: int| 0 <= k < 6 ==> (#[trigger] parse_octet(fs[k])) is Some {
        Some(Seq::new(6, |k: int| parse_octet(fs[k]).unwrap()))
    } else {
        None
    }
}

/// The upper-case hexadecimal digit of `n`, for `n < 16`.
pub open spec fn hex_upper(n: nat) -> char {
    if n < 10 {
        ((n + '0' as nat) as u32) as char
    } else {
        ((n - 10 + 'A' as nat) as u32) as char
    }
}

/// An octet as two upper-case hexadecimal digits.
pub open spec fn octet_text(b: u8) -> Seq<char> {
    seq![hex_upper((b / 16) as nat), hex_upper((b % 16) as nat)]
}

/// The usual text of a hardware address: six two-digit upper-case octets
/// joined by colons.
pub open spec fn mac_text(b: Seq<u8>) -> Seq<char> {
    octet_text(b[0]) + seq![':'] + octet_text(b[1]) + seq![':'] + octet_text(b[2]) + seq![':']
        + octet_text(b[3]) + seq![':'] + octet_text(b[4]) + seq![':'] + octet_text(b[5])
}

proof fn lemma_split_nonempty(s: Seq<char>)
    ensures
        split_colons(s).len() >= 1,
    decreases s.len(),
{
    if s.len() > 0 {
        lemma_split_nonempty(s.drop_last());
    }
}

fn hex_digit(c: char) -> (r: Option<u32>)
    ensures
        r is Some <==> hex_digit_value(c) is Some,
        r is Some ==> r->0 as nat == hex_digit_value(c)->0 && r->0 < 16,
{
    if '0' <= c && c <= '9' {
        Some(c as u32 - '0' as u32)
    } else if 'a' <= c && c <= 'f' {
        Some(c as u32 - 'a' as u32 + 10)
    } else if 'A' <= c && c <= 'F' {
        Some(c as u32 - 'A' as u32 + 10)
    } else {
        None
    }
}

/// Reads one octet written in base 16, as `u8::from_str_radix(f, 16)` does.
fn octet_from_hex(f: &Vec<char>) -> (r: Option<u8>)
    ensures
        r == parse_octet(f@),
{
    let ghost fs = f@;
    let mut start: usize = 0;
    if f.len() > 0 && f[0] == '+' {
        start = 1;
    }
    let ghost d = if fs.len() > 0 && fs[0] == '+' { fs.drop_first() } else { fs };
    assert(d =~= fs.subrange(start as int, fs.len() as int));
    if start == f.len() {
        return None;
    }
    let mut acc: u32 = 0;
    let mut i: usize = start;
    while i < f.len()
        invariant
            start <= i <= f.len(),
            d =~= fs.subrange(start as int, fs.len() as int),
            fs == f@,
            d == (if fs.len() > 0 && fs[0] == '+' { fs.drop_first() } else { fs }),
            all_hex(fs.subrange(start as int, i as int)),
            acc <= 255 ==> acc as nat == hex_number(fs.subrange(start as int, i as int)),
            acc > 255 ==> hex_number(fs.subrange(start as int, i as int)) > 255,
            acc <= 256,
        decreases f.len() - i,
    {
        let ghost p = fs.subrange(start as int, i as int);
        let ghost q = fs.subrange(start as int, i + 1);
        assert(q.drop_last() =~= p);
        match hex_digit(f[i]) {
            None => {
                assert(d[i - start] == fs[i as int]);
                assert(hex_digit_value(d[i - start]) is None);
                return None;
            },
            Some(v) => {
                if acc <= 255 {
                    acc = acc * 16 + v;
                    if acc > 255 {
                        acc = 256;
                    }
                }
                assert(all_hex(q)) by {
                    assert forall|j: int| 0 <= j < q.len() implies (#[trigger] hex_digit_value(q[j])) is Some by {
                        if j < p.len() {
                            assert(q[j] == p[j]);
                        }
                    }
                }
            },
        }
        i = i + 1;
    }
    assert(fs.subrange(start as int, i as int) =~= d);
    if acc <= 255 {
        Some(acc as u8)
    } else {
        None
    }
}

/// The upper-case digit of `n` as a one-character text.
fn hex_upper_str(n: u8) -> (r: &'static str)
    requires
        n < 16,
    ensures
        r@ == seq![hex_upper(n as nat)],
{
    match n {
        0 => {
            proof {
                reveal_strlit("0");
            }
            "0"
        },
        1 => {
            proof {
                reveal_strlit("1");
            }
            "1"
        },
        2 => {
            proof {
                reveal_strlit("2");
            }
            "2"
        },
        3 => {
            proof {
                reveal_strlit("3");
            }
            "3"
        },
        4 => {
            proof {
                reveal_strlit("4");
            }
            "4"
        },
        5 => {
            proof {
                reveal_strlit("5");
            }
            "5"
        },
        6 => {
            proof {
                reveal_strlit("6");
            }
            "6"
        },
        7 => {
            proof {
                reveal_strlit("7");
            }
            "7"
        },
        8 => {
            proof {
                reveal_strlit("8");
            }
            "8"
        },
        9 => {
            proof {
                reveal_strlit("9");
            }
            "9"
        },
        10 => {
            proof {
                reveal_strlit("A");
            }
            "A"
        },
        11 => {
            proof {
                reveal_strlit("B");
            }
            "B"
        },
        12 => {
            proof {
                reveal_strlit("C");
            }
            "C"
        },
        13 => {
            proof {
                reveal_strlit("D");
            }
            "D"
        },
        14 => {
            proof {
                reveal_strlit("E");
            }
            "E"
        },
        _ => {
            proof {
                reveal_strlit("F");
            }
            "F"
        },
    }
}

impl MacAddress {
    pub fn new(data: [u8; 6]) -> (r: MacAddress)
        ensures
            r == MacAddress(data),
    {
        MacAddress(data)
    }

    /// The address as six two-digit upper-case octets joined by colons.
    pub fn to_string(&self) -> (r: String)
        ensures
            r@ == mac_text(self.0@),
    {
        let mut r = String::new();
        let mut i: usize = 0;
        while i < 6
            invariant
                i <= 6,
                r@ == if i == 0 {
                    Seq::<char>::empty()
                } else {
                    mac_text(self.0@).subrange(0, 3 * i - 1)
                },
            decreases 6 - i,
        {
            if i > 0 {
                proof {
                    reveal_strlit(":");
                }
                r.append(":");
            }
            let b = self.0[i];
            r.append(hex_upper_str(b / 16));
            r.append(hex_upper_str(b % 16));
            assert(r@ =~= mac_text(self.0@).subrange(0, 3 * i + 2));
            i = i + 1;
        }
        assert(r@ =~= mac_text(self.0@));
        r
    }

    /// Parses six colon-separated octets written in base 16 (each with at most
    /// an optional `+` and leading zeros besides its digits).
    pub fn try_from(value: &str) -> (r: Result<MacAddress, Error>)
        ensures
            match parse_mac(value@) {
                Some(b) => r matches Ok(m) && m.0@ == b,
                None => r matches Err(Error::InvalidMacAddress { value: v }) && v@ == value@,
            },
    {
        let n = value.unicode_len();
        let mut octets: Vec<u8> = Vec::new();
        let mut current: Vec<char> = Vec::new();
        let mut count: usize = 1;
        let mut ok: bool = true;
        let mut i: usize = 0;
        proof {
            assert(value@.subrange(0, 0) =~= Seq::<char>::empty());
        }
        while i < n
            invariant
                n == value@.len(),
                0 <= i <= n,
                ({
                    let fs = split_colons(value@.subrange(0, i as int));
                    &&& count == if fs.len() < 7 { fs.len() } else { 7 }
                    &&& current@ == fs.last()
                    &&& (ok <==> forall|k: int| 0 <= k < fs.len() - 1 ==> (#[trigger] parse_octet(fs[k])) is Some)
                    &&& (ok ==> octets@.len() == if fs.len() - 1 < 6 { fs.len() - 1 } else { 6 })
                    &&& (ok ==> forall|k: int| 0 <= k < octets@.len() ==> parse_octet(fs[k]) == Some(#[trigger] octets@[k]))
                }),
            decreases n - i,
        {
            let ghost fs = split_colons(value@.subrange(0, i as int));
            let ghost t = value@.subrange(0, i + 1);
            proof {
                lemma_split_nonempty(value@.subrange(0, i as int));
                assert(t.drop_last() =~= value@.subrange(0, i as int));
                assert(t.last() == value@[i as int]);
            }
            let c = value.get_char(i);
            if c == ':' {
                let o = octet_from_hex(&current);
                let ghost nfs = split_colons(t);
                assert(nfs == fs.push(Seq::<char>::empty()));
                if o.is_none() {
                    ok = false;
                } else if ok && octets.len() < 6 {
                    octets.push(o.unwrap());
                }
                current = Vec::new();
                if count < 7 {
                    count = count + 1;
                }
                proof {
                    assert(nfs[fs.len() - 1] == fs.last());
                    assert forall|k: int| 0 <= k < fs.len() - 1 implies nfs[k] == fs[k] by {}
                }
            } else {
                current.push(c);
                let ghost nfs = split_colons(t);
                assert(nfs == fs.update(fs.len() - 1, fs.last().push(c)));
                assert forall|k: int| 0 <= k < fs.len() - 1 implies nfs[k] == fs[k] by {}
            }
            i = i + 1;
        }
        proof {
            assert(value@.subrange(0, n as int) =~= value@);
            lemma_split_nonempty(value@);
        }
        let last = octet_from_hex(&current);
        let ghost fs = split_colons(value@);
        if ok && count == 6 && last.is_some() {
            octets.push(last.unwrap());
            let m = MacAddress([octets[0], octets[1], octets[2], octets[3], octets[4], octets[5]]);
            proof {
                assert(forall|k: int| 0 <= k < 6 ==> (#[trigger] parse_octet(fs[k])) is Some);
                assert(m.0@ =~= Seq::new(6, |k: int| parse_octet(fs[k]).unwrap()));
            }
            Ok(m)
        } else {
            proof {
                if parse_mac(value@) is Some {
                    assert(parse_octet(fs[5]) is Some);
                }
            }
            Err(Error::InvalidMacAddress { value: String::from_str(value) })
        }
    }
}

} // verus!
