//! Team records: one comma-separated line per team, carrying the team's
//! name, its abbreviation and its color as six hex digits (with any number
//! of leading `#` marks before the digits).

use vstd::prelude::*;
use vstd::string::StrSliceExecFns;
use vstd::string::StringExecFns;

verus! {

/// One team of the survey run.
#[derive(Debug)]
pub struct Team {
    pub name: String,
    pub abbr: String,
    pub color: [u8; 3],
}

/// The character is an upper- or lower-case hexadecimal digit.
pub open spec fn is_hex_digit(c: char) -> bool {
    ||| '0' as int <= c as int <= '9' as int
    ||| 'a' as int <= c as int <= 'f' as int
    ||| 'A' as int <= c as int <= 'F' as int
}

/// The value of one hexadecimal digit.
pub open spec fn hex_digit_val(c: char) -> int {
    if '0' as int <= c as int <= '9' as int {
        c as int - '0' as int
    } else if 'a' as int <= c as int <= 'f' as int {
        c as int - 'a' as int + 10
    } else {
        c as int - 'A' as int + 10
    }
}

/// The byte written as two hexadecimal digits, most significant first.
pub open spec fn hex_byte(hi: char, lo: char) -> u8 {
    (hex_digit_val(hi) * 16 + hex_digit_val(lo)) as u8
}

/// The position of the first occurrence of `c` in `s` at or after `from`,
/// or the length of `s` when there is none.
pub open spec fn find_char(s: Seq<char>, c: char, from: int) -> int
    decreases s.len() - from,
{
    if from >= s.len() {
        s.len() as int
    } else if s[from] == c {
        from
    } else {
        find_char(s, c, from + 1)
    }
}

/// The position of the first character at or after `from` that is not a
/// `#` mark, or the length of `s` when all of the rest are.
pub open spec fn skip_hashes(s: Seq<char>, from: int) -> int
    decreases s.len() - from,
{
    if from >= s.len() {
        s.len() as int
    } else if s[from] == '#' {
        skip_hashes(s, from + 1)
    } else {
        from
    }
}

/// Relies on `hex::FromHex` for `[u8; 3]`: decoding succeeds exactly on
/// six hexadecimal digits (upper or lower case, freely mixed) and yields
/// the three bytes they write, most significant digit first.
#[verifier::external_body]
fn hex_color(s: &str) -> (r: Option<[u8; 3]>)
    ensures
        r is Some <==> (s@.len() == 6 && (forall|i: int| 0 <= i < 6 ==> is_hex_digit(#[trigger] s@[i]))),
        r matches Some(c) ==> {
            &&& c@[0] == hex_byte(s@[0], s@[1])
            &&& c@[1] == hex_byte(s@[2], s@[3])
            &&& c@[2] == hex_byte(s@[4], s@[5])
        },
{
    <[u8; 3] as hex::FromHex>::from_hex(s).ok()
}

/// The position of the first comma in `s` at or after `from`, or the
/// length of `s` when there is none.
fn find_comma(s: &str, from: usize) -> (r: usize)
    requires
        from <= s@.len(),
    ensures
        r == find_char(s@, ',', from as int),
        from <= r <= s@.len(),
{
    let n = s.unicode_len();
    let mut i = from;
    while i < n
        invariant
            n == s@.len(),
            from <= i <= n,
            find_char(s@, ',', from as int) == find_char(s@, ',', i as int),
        decreases n - i,
    {
        if s.get_char(i) == ',' {
            return i;
        }
        i = i + 1;
    }
    i
}

/// The position of the first character of `s` at or after `from` that is
/// not a `#` mark.
fn find_hash_end(s: &str, from: usize) -> (r: usize)
    requires
        from <= s@.len(),
    ensures
        r == skip_hashes(s@, from as int),
        from <= r <= s@.len(),
{
    let n = s.unicode_len();
    let mut i = from;
    while i < n
        invariant
            n == s@.len(),
            from <= i <= n,
            skip_hashes(s@, from as int) == skip_hashes(s@, i as int),
        decreases n - i,
    {
        if s.get_char(i) != '#' {
            return i;
        }
        i = i + 1;
    }
    i
}

/// The hex-digit portion of a team line's color field: the third
/// comma-separated field with its leading `#` marks removed.
pub open spec fn color_field(s: Seq<char>) -> Seq<char> {
    let i2 = find_char(s, ',', find_char(s, ',', 0) + 1);
    let i3 = find_char(s, ',', i2 + 1);
    let k = skip_hashes(s, i2 + 1);
    let start = if k <= i3 {
        k
    } else {
        i3
    };
    s.subrange(start, i3)
}

/// A team line parses: it has at least three comma-separated fields, and
/// the color field is exactly six hex digits.
pub open spec fn line_parses(s: Seq<char>) -> bool {
    &&& find_char(s, ',', 0) < s.len()
    &&& find_char(s, ',', find_char(s, ',', 0) + 1) < s.len()
    &&& color_field(s).len() == 6
    &&& forall|j: int| 0 <= j < 6 ==> is_hex_digit(#[trigger] color_field(s)[j])
}

/// The team record a parsing team line denotes.
pub open spec fn team_matches(s: Seq<char>, t: Team) -> bool {
    let i1 = find_char(s, ',', 0);
    let i2 = find_char(s, ',', i1 + 1);
    let hexpart = color_field(s);
    &&& t.name@ == s.subrange(0, i1)
    &&& t.abbr@ == s.subrange(i1 + 1, i2)
    &&& t.color@[0] == hex_byte(hexpart[0], hexpart[1])
    &&& t.color@[1] == hex_byte(hexpart[2], hexpart[3])
    &&& t.color@[2] == hex_byte(hexpart[4], hexpart[5])
}

impl Team {
    /// Parse one team line: the name up to the first comma, the
    /// abbreviation up to the second, then the color as six hex digits
    /// after any leading `#` marks, ignoring anything past a third comma.
    /// `None` when a comma is missing or the color is not six hex digits.
    pub fn from_str(s: &str) -> (r: Option<Team>)
        ensures
            r is Some <==> line_parses(s@),
            r matches Some(t) ==> team_matches(s@, t),
    {
        let n = s.unicode_len();
        let i1 = find_comma(s, 0);
        if i1 == n {
            return None;
        }
        let i2 = find_comma(s, i1 + 1);
        if i2 == n {
            return None;
        }
        let i3 = find_comma(s, i2 + 1);
        let k = find_hash_end(s, i2 + 1);
        let start = if k <= i3 {
            k
        } else {
            i3
        };
        let hexpart = s.substring_char(start, i3);
        match hex_color(hexpart) {
            None => None,
            Some(color) => {
                let name = String::from_str(s.substring_char(0, i1));
                let abbr = String::from_str(s.substring_char(i1 + 1, i2));
                Some(Team { name, abbr, color })
            },
        }
    }
}

} // verus!
