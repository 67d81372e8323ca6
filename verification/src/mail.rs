//! The data the mail-client capability provider hands around, and the
//! pure text helpers its readers use.  Reading the actual profile files
//! and databases is the surrounding process's work.

use vstd::prelude::*;

verus! {

/// One configured mail identity.
#[derive(Debug)]
pub struct ThunderbirdIdentity {
    pub name: String,
    pub email: String,
    pub profile: String,
}

/// One calendar entry.
#[derive(Debug)]
pub struct CalendarEvent {
    pub title: String,
    pub start_time: String,
    pub end_time: String,
    pub date: String,
}

/// One stored mail message.
#[derive(Debug)]
pub struct Email {
    pub id: i64,
    pub subject: String,
    pub sender: String,
    pub recipients: String,
    pub body: String,
    pub date: String,
    pub folder: String,
}

/// The position of the last `c` of `s`, or `-1`.
pub open spec fn find_last_char(s: Seq<char>, c: char) -> int
    decreases s.len(),
{
    if s.len() == 0 {
        -1
    } else if s.last() == c {
        s.len() - 1
    } else {
        find_last_char(s.drop_last(), c)
    }
}

/// What a preference line's quoted value is: the text between the last
/// two quotes, provided nothing follows the last quote but unquoted text
/// and the value is non-empty.
pub open spec fn spec_extract_quoted_value(s: Seq<char>) -> Option<Seq<char>> {
    let q2 = find_last_char(s, '"');
    if q2 < 0 {
        None
    } else {
        let q1 = find_last_char(s.subrange(0, q2), '"');
        if q1 < 0 || q2 - q1 <= 1 {
            None
        } else {
            Some(s.subrange(q1 + 1, q2))
        }
    }
}

/// `find_last_char` names the position of the last occurrence.
proof fn lemma_find_last_char_at(s: Seq<char>, c: char, k: int)
    requires
        0 <= k < s.len(),
        s[k] == c,
        forall|m: int| k < m < s.len() ==> s[m] != c,
    ensures
        find_last_char(s, c) == k,
    decreases s.len(),
{
    if k < s.len() - 1 {
        assert(forall|m: int| k < m < s.drop_last().len() ==> s.drop_last()[m] != c);
        assert(s.drop_last()[k] == s[k]);
        lemma_find_last_char_at(s.drop_last(), c, k);
    }
}

/// With no occurrence, `find_last_char` answers `-1`.
proof fn lemma_find_last_char_none(s: Seq<char>, c: char)
    requires
        forall|m: int| 0 <= m < s.len() ==> s[m] != c,
    ensures
        find_last_char(s, c) == -1,
    decreases s.len(),
{
    if s.len() > 0 {
        assert(forall|m: int| 0 <= m < s.drop_last().len() ==> s.drop_last()[m] != c);
        lemma_find_last_char_none(s.drop_last(), c);
    }
}

/// The position of the last `c` before `hi`, scanned backwards.
fn rfind_char(cs: &Vec<char>, hi: usize, c: char) -> (r: Option<usize>)
    requires
        hi <= cs@.len(),
    ensures
        match r {
            Some(k) => k < hi && find_last_char(cs@.subrange(0, hi as int), c) == k as int,
            None => find_last_char(cs@.subrange(0, hi as int), c) == -1,
        },
{
    let ghost w = cs@.subrange(0, hi as int);
    let mut e: usize = hi;
    while e > 0
        invariant
            e <= hi <= cs@.len(),
            w == cs@.subrange(0, hi as int),
            forall|m: int| e <= m < hi ==> w[m] != c,
        decreases e,
    {
        e = e - 1;
        proof {
            assert(w[e as int] == cs@[e as int]);
        }
        if cs[e] == c {
            proof {
                lemma_find_last_char_at(w, c, e as int);
            }
            return Some(e);
        }
    }
    proof {
        lemma_find_last_char_none(w, c);
    }
    None
}

/// Reads the quoted value out of a preference line such as
/// `user_pref("key", "value");`: the text between the line's last two
/// quotes, when it is non-empty and the quotes close the line's quoting.
pub fn extract_quoted_value(line: &str) -> (r: Option<String>)
    ensures
        match r {
            Some(v) => spec_extract_quoted_value(line@) == Some(v@),
            None => spec_extract_quoted_value(line@) is None,
        },
{
    let cs = crate::text::chars_of(line);
    proof {
        assert(cs@.subrange(0, cs@.len() as int) =~= line@);
    }
    let q2 = match rfind_char(&cs, cs.len(), '"') {
        Some(k) => k,
        None => {
            return None;
        },
    };
    let q1 = match rfind_char(&cs, q2, '"') {
        Some(k) => k,
        None => {
            return None;
        },
    };
    if q2 - q1 <= 1 {
        return None;
    }
    Some(crate::text::substring_string(&cs, q1 + 1, q2))
}

/// The character with an ASCII uppercase letter lowered.
pub open spec fn lower_char(c: char) -> char {
    if c == 'A' {
        'a'
    } else if c == 'B' {
        'b'
    } else if c == 'C' {
        'c'
    } else if c == 'D' {
        'd'
    } else if c == 'E' {
        'e'
    } else if c == 'F' {
        'f'
    } else if c == 'G' {
        'g'
    } else if c == 'H' {
        'h'
    } else if c == 'I' {
        'i'
    } else if c == 'J' {
        'j'
    } else if c == 'K' {
        'k'
    } else if c == 'L' {
        'l'
    } else if c == 'M' {
        'm'
    } else if c == 'N' {
        'n'
    } else if c == 'O' {
        'o'
    } else if c == 'P' {
        'p'
    } else if c == 'Q' {
        'q'
    } else if c == 'R' {
        'r'
    } else if c == 'S' {
        's'
    } else if c == 'T' {
        't'
    } else if c == 'U' {
        'u'
    } else if c == 'V' {
        'v'
    } else if c == 'W' {
        'w'
    } else if c == 'X' {
        'x'
    } else if c == 'Y' {
        'y'
    } else if c == 'Z' {
        'z'
    } else {
        c
    }
}

/// The text with its ASCII uppercase letters lowered.
pub open spec fn ascii_lower(s: Seq<char>) -> Seq<char> {
    Seq::new(s.len(), |i: int| lower_char(s[i]))
}

/// The character with an ASCII uppercase letter lowered.
fn lower_char_exec(c: char) -> (r: char)
    ensures
        r == lower_char(c),
{
    match c {
        'A' => 'a',
        'B' => 'b',
        'C' => 'c',
        'D' => 'd',
        'E' => 'e',
        'F' => 'f',
        'G' => 'g',
        'H' => 'h',
        'I' => 'i',
        'J' => 'j',
        'K' => 'k',
        'L' => 'l',
        'M' => 'm',
        'N' => 'n',
        'O' => 'o',
        'P' => 'p',
        'Q' => 'q',
        'R' => 'r',
        'S' => 's',
        'T' => 't',
        'U' => 'u',
        'V' => 'v',
        'W' => 'w',
        'X' => 'x',
        'Y' => 'y',
        'Z' => 'z',
        _ => c,
    }
}

/// The text with its ASCII uppercase letters lowered.
fn ascii_lower_exec(s: &str) -> (r: String)
    ensures
        r@ == ascii_lower(s@),
{
    let cs = crate::text::chars_of(s);
    let mut out: Vec<char> = Vec::new();
    let mut i: usize = 0;
    while i < cs.len()
        invariant
            i <= cs@.len(),
            cs@ == s@,
            out@.len() == i,
            forall|j: int| 0 <= j < i ==> out@[j] == lower_char(s@[j]),
        decreases cs@.len() - i,
    {
        out.push(lower_char_exec(cs[i]));
        i = i + 1;
    }
    proof {
        assert(out@ =~= ascii_lower(s@));
    }
    crate::text::string_from_chars(&out)
}

/// The mailbox-URI pattern a folder alias names, for locale-independent
/// matching (ASCII case-insensitive); an unknown alias is used as it
/// stands.
pub open spec fn spec_folder_pattern(s: Seq<char>) -> Seq<char> {
    let l = ascii_lower(s);
    if l == "inbox"@ || l.len() == 0 {
        "%/INBOX"@
    } else if l == "sent"@ {
        "%Sent%"@
    } else if l == "drafts"@ || l == "draft"@ {
        "%Draft%"@
    } else if l == "trash"@ {
        "%Trash%"@
    } else if l == "spam"@ || l == "junk"@ {
        "%Spam%"@
    } else if l == "all"@ {
        "%/\u{3059}\u{3079}\u{3066}\u{306e}\u{30e1}\u{30fc}\u{30eb}"@
    } else {
        s
    }
}

/// The mailbox-URI pattern a folder alias names.
pub fn folder_to_uri_pattern(folder: &str) -> (r: String)
    ensures
        r@ == spec_folder_pattern(folder@),
{
    let l = ascii_lower_exec(folder);
    if crate::text::string_eq_str(&l, "inbox") || l.as_str().unicode_len() == 0 {
        String::from_str("%/INBOX")
    } else if crate::text::string_eq_str(&l, "sent") {
        String::from_str("%Sent%")
    } else if crate::text::string_eq_str(&l, "drafts") || crate::text::string_eq_str(&l, "draft") {
        String::from_str("%Draft%")
    } else if crate::text::string_eq_str(&l, "trash") {
        String::from_str("%Trash%")
    } else if crate::text::string_eq_str(&l, "spam") || crate::text::string_eq_str(&l, "junk") {
        String::from_str("%Spam%")
    } else if crate::text::string_eq_str(&l, "all") {
        String::from_str("%/\u{3059}\u{3079}\u{3066}\u{306e}\u{30e1}\u{30fc}\u{30eb}")
    } else {
        String::from_str(folder)
    }
}

} // verus!
