//! The textual preamble: protocol versions and the client's query line.
use vstd::prelude::*;

verus! {

/// An ordered protocol version pair, serialized as decimal "M.m".
#[derive(Clone, Copy, Debug, PartialEq, Eq, Structural)]
pub struct Version {
    pub major: u32,
    pub minor: u32,
}

/// Why a version field failed to parse.
#[derive(Clone, Copy, Debug, PartialEq, Eq, Structural)]
pub enum VersionParseError {
    /// A field held something besides decimal digits, or overflowed.
    InvalidVersionNumber,
    /// Fewer than two dot-separated fields.
    IncompleteVersionSpecifier,
}

/// What the client asked for: the module list, or one module's files.
#[derive(Clone, Debug)]
pub enum Query {
    ModuleList,
    FileList { module: String },
}

/// Why a query failed to parse.  The grammar accepts every line, so no
/// input produces this today; the kind is part of the error taxonomy.
#[derive(Clone, Copy, Debug, PartialEq, Eq, Structural)]
pub enum QueryParseError {
    InvalidQuery,
}

/// The numeric value of a decimal digit character.
pub open spec fn digit_val(c: char) -> nat
    recommends
        is_digit(c),
{
    ((c as nat) - 48) as nat
}

/// Whether a character is a decimal digit.
pub open spec fn is_digit(c: char) -> bool {
    48 <= (c as nat) <= 57
}

/// Whether every character of `s` is a decimal digit.
pub open spec fn all_digits(s: Seq<char>) -> bool {
    forall|i: int| 0 <= i < s.len() ==> is_digit(#[trigger] s[i])
}

/// The value of a digit string, most significant first.
pub open spec fn dec_value(s: Seq<char>) -> nat
    decreases s.len(),
{
    if s.len() == 0 {
        0
    } else {
        10 * dec_value(s.drop_last()) + digit_val(s.last())
    }
}

/// What parsing a whole string as a decimal u32 yields: nothing for an
/// empty string, a non-digit anywhere, or a value past 32 bits.
pub open spec fn spec_parse_u32(s: Seq<char>) -> Option<u32> {
    if s.len() == 0 || !all_digits(s) || dec_value(s) > 0xFFFFFFFF {
        None
    } else {
        Some(dec_value(s) as u32)
    }
}

/// The index of the first `c` in `s`, if any.
pub open spec fn find_char(s: Seq<char>, c: char) -> Option<int>
    decreases s.len(),
{
    if s.len() == 0 {
        None
    } else if s[0] == c {
        Some(0)
    } else {
        match find_char(s.skip(1), c) {
            Some(i) => Some(i + 1),
            None => None,
        }
    }
}

proof fn lemma_find_char_at(s: Seq<char>, c: char, o: int)
    requires
        0 <= o < s.len(),
        s[o] == c,
        forall|j: int| 0 <= j < o ==> s[j] != c,
    ensures
        find_char(s, c) == Some(o),
    decreases o,
{
    if o > 0 {
        assert(forall|j: int| 0 <= j < o - 1 ==> s.skip(1)[j] != c);
        lemma_find_char_at(s.skip(1), c, o - 1);
    }
}

proof fn lemma_find_char_none(s: Seq<char>, c: char)
    requires
        forall|j: int| 0 <= j < s.len() ==> s[j] != c,
    ensures
        find_char(s, c) is None,
    decreases s.len(),
{
    if s.len() > 0 {
        assert(forall|j: int| 0 <= j < s.len() - 1 ==> s.skip(1)[j] != c);
        lemma_find_char_none(s.skip(1), c);
    }
}

/// What parsing a version line yields, on the text after the protocol
/// prefix: the field before the first dot is the major version, the
/// field between the first and second dot (or the end) the minor; both
/// decimal 32-bit.
pub open spec fn spec_parse_version(s: Seq<char>) -> Result<Version, VersionParseError> {
    match find_char(s, '.') {
        None => Err(VersionParseError::IncompleteVersionSpecifier),
        Some(d1) => {
            let major_part = s.take(d1);
            let rest = s.skip(d1 + 1);
            let minor_part = match find_char(rest, '.') {
                None => rest,
                Some(d2) => rest.take(d2),
            };
            match (spec_parse_u32(major_part), spec_parse_u32(minor_part)) {
                (Some(major), Some(minor)) => Ok(Version { major, minor }),
                _ => Err(VersionParseError::InvalidVersionNumber),
            }
        },
    }
}

/// A longer digit prefix never has a smaller value.
proof fn lemma_dec_value_prefix_grows(s: Seq<char>, i: int, j: int)
    requires
        0 <= i <= j <= s.len(),
    ensures
        dec_value(s.take(i)) <= dec_value(s.take(j)),
    decreases j - i,
{
    if i < j {
        lemma_dec_value_prefix_grows(s, i, j - 1);
        let t = s.take(j);
        assert(t.drop_last() =~= s.take(j - 1));
        assert(dec_value(s.take(j)) == 10 * dec_value(s.take(j - 1)) + digit_val(s[j - 1]));
    }
}

/// Parses a whole string of decimal digits as a u32.
fn parse_decimal_u32(s: &str) -> (r: Option<u32>)
    ensures
        r == spec_parse_u32(s@),
{
    let n = s.unicode_len();
    if n == 0 {
        return None;
    }
    let mut val: u32 = 0;
    let mut i: usize = 0;
    while i < n
        invariant
            0 < n == s@.len(),
            i <= n,
            all_digits(s@.take(i as int)),
            val == dec_value(s@.take(i as int)),
        decreases n - i,
    {
        let c = s.get_char(i);
        let code: u32 = c as u32;
        if code < 48 || code > 57 {
            assert(!is_digit(s@[i as int]));
            return None;
        }
        let d: u32 = code - 48;
        if val > (0xFFFFFFFF - d) / 10 {
            proof {
                vstd::arithmetic::div_mod::lemma_fundamental_div_mod(
                    (0xFFFFFFFFu32 - d) as int,
                    10,
                );
                assert(10 * val + d > 0xFFFFFFFF);
                let t = s@.take(i + 1);
                assert(t.drop_last() =~= s@.take(i as int));
                assert(t.last() == s@[i as int]);
                assert(dec_value(t) == 10 * val + d);
                lemma_dec_value_prefix_grows(s@, i + 1, s@.len() as int);
                assert(s@.take(s@.len() as int) =~= s@);
                assert(dec_value(s@) > 0xFFFFFFFF);
            }
            return None;
        }
        proof {
            vstd::arithmetic::div_mod::lemma_fundamental_div_mod((0xFFFFFFFFu32 - d) as int, 10);
            assert(10 * val + d <= 0xFFFFFFFF);
            let t = s@.take(i + 1);
            assert(t.drop_last() =~= s@.take(i as int));
            assert(t.last() == s@[i as int]);
            assert(is_digit(s@[i as int]));
            assert(all_digits(s@.take(i + 1))) by {
                assert(forall|j: int| 0 <= j < i ==> t[j] == s@.take(i as int)[j]);
            }
        }
        val = val * 10 + d;
        i = i + 1;
    }
    proof {
        assert(s@.take(n as int) =~= s@);
    }
    Some(val)
}

/// Finds the first `c` in `s`, scanning by character.
fn find_char_exec(s: &str, c: char) -> (r: Option<usize>)
    ensures
        match r {
            Some(i) => i < s@.len() && find_char(s@, c) == Some(i as int),
            None => find_char(s@, c) is None,
        },
{
    let n = s.unicode_len();
    let mut i: usize = 0;
    while i < n
        invariant
            i <= n == s@.len(),
            forall|j: int| 0 <= j < i ==> s@[j] != c,
        decreases n - i,
    {
        if s.get_char(i) == c {
            proof {
                lemma_find_char_at(s@, c, i as int);
            }
            return Some(i);
        }
        i = i + 1;
    }
    proof {
        lemma_find_char_none(s@, c);
    }
    None
}

impl Version {
    /// Parses "M.m"; anything past a second dot is ignored.
    pub fn parse(data: &str) -> (r: Result<Version, VersionParseError>)
        ensures
            r == spec_parse_version(data@),
    {
        let n = data.unicode_len();
        let d1 = match find_char_exec(data, '.') {
            Some(i) => i,
            None => {
                return Err(VersionParseError::IncompleteVersionSpecifier);
            },
        };
        let major_part = data.substring_char(0, d1);
        proof {
            assert(major_part@ =~= data@.take(d1 as int));
        }
        let rest = data.substring_char(d1 + 1, n);
        proof {
            assert(rest@ =~= data@.skip(d1 + 1));
        }
        let minor_part = match find_char_exec(rest, '.') {
            Some(d2) => {
                let m = rest.substring_char(0, d2);
                proof {
                    assert(m@ =~= rest@.take(d2 as int));
                }
                m
            },
            None => rest,
        };
        match (parse_decimal_u32(major_part), parse_decimal_u32(minor_part)) {
            (Some(major), Some(minor)) => Ok(Version { major, minor }),
            _ => Err(VersionParseError::InvalidVersionNumber),
        }
    }
}

/// The decimal digits of `n`, most significant first.
pub open spec fn dec_digits(n: nat) -> Seq<char>
    decreases n,
{
    if n < 10 {
        seq![digit_char(n)]
    } else {
        dec_digits(n / 10) + seq![digit_char(n % 10)]
    }
}

/// The character of one decimal digit.
pub open spec fn digit_char(d: nat) -> char
    recommends
        d < 10,
{
    if d == 0 {
        '0'
    } else if d == 1 {
        '1'
    } else if d == 2 {
        '2'
    } else if d == 3 {
        '3'
    } else if d == 4 {
        '4'
    } else if d == 5 {
        '5'
    } else if d == 6 {
        '6'
    } else if d == 7 {
        '7'
    } else if d == 8 {
        '8'
    } else {
        '9'
    }
}

/// One digit as a string slice.
fn digit_str(d: u32) -> (r: &'static str)
    requires
        d < 10,
    ensures
        r@ == seq![digit_char(d as nat)],
{
    proof {
        reveal_strlit("0");
        reveal_strlit("1");
        reveal_strlit("2");
        reveal_strlit("3");
        reveal_strlit("4");
        reveal_strlit("5");
        reveal_strlit("6");
        reveal_strlit("7");
        reveal_strlit("8");
        reveal_strlit("9");
    }
    let r = match d {
        0 => "0",
        1 => "1",
        2 => "2",
        3 => "3",
        4 => "4",
        5 => "5",
        6 => "6",
        7 => "7",
        8 => "8",
        _ => "9",
    };
    proof {
        assert(r@ =~= seq![digit_char(d as nat)]);
    }
    r
}

/// Appends the decimal form of `n`.
fn push_decimal(n: u32, out: &mut String)
    ensures
        final(out)@ == old(out)@ + dec_digits(n as nat),
    decreases n,
{
    if n < 10 {
        out.append(digit_str(n));
    } else {
        push_decimal(n / 10, out);
        out.append(digit_str(n % 10));
        proof {
            assert(out@ =~= old(out)@ + dec_digits(n as nat));
        }
    }
}

impl Version {
    /// The version's text: major, a dot, minor, all decimal.
    pub open spec fn spec_serialize(&self) -> Seq<char> {
        dec_digits(self.major as nat) + seq!['.'] + dec_digits(self.minor as nat)
    }

    pub fn serialize(&self) -> (r: String)
        ensures
            r@ == self.spec_serialize(),
    {
        let mut out = String::new();
        push_decimal(self.major, &mut out);
        proof {
            reveal_strlit(".");
        }
        out.append(".");
        push_decimal(self.minor, &mut out);
        proof {
            assert(out@ =~= self.spec_serialize());
        }
        out
    }
}

impl core::default::Default for Version {
    /// The version this daemon speaks: 31.0.
    fn default() -> (r: Version)
        ensures
            r.major == 31,
            r.minor == 0,
    {
        Version { major: 31, minor: 0 }
    }
}

impl Query {
    /// Parses a query line: the empty line and "#list" ask for the
    /// module list, anything else names a module.  Every line parses.
    pub fn parse(data: &str) -> (r: Result<Query, QueryParseError>)
        ensures
            match r {
                Ok(Query::ModuleList) => data@.len() == 0 || data@ == "#list"@,
                Ok(Query::FileList { module }) => module@ == data@ && data@.len() > 0 && data@
                    != "#list"@,
                Err(_) => false,
            },
    {
        if data.is_empty() {
            return Ok(Query::ModuleList);
        }
        let d = String::from_str(data);
        let listword = String::from_str("#list");
        if d.eq(&listword) {
            proof {
                assert(data@ == "#list"@);
            }
            return Ok(Query::ModuleList);
        }
        Ok(Query::FileList { module: data.to_owned() })
    }
}

} // verus!
