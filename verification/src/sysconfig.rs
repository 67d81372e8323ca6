//! Static application configuration and the banner built from it, plus
//! the small helper state test setups use.

use vstd::prelude::*;

verus! {

/// The decimal digit character of one value below ten.
pub open spec fn digit_char(d: int) -> char {
    if d == 0 {
        '0'
    } else if d == 1 {
        '1'
    } else if d == 2 {
        '2'
    } else if d == 3 {
        '3'
    } else if d == 4 {
        '4'
    } else if d == 5 {
        '5'
    } else if d == 6 {
        '6'
    } else if d == 7 {
        '7'
    } else if d == 8 {
        '8'
    } else {
        '9'
    }
}

/// The decimal spelling of a number, most significant digit first.
pub open spec fn dec_digits(n: int) -> Seq<char>
    decreases n,
{
    if n < 10 {
        seq![digit_char(n)]
    } else {
        dec_digits(n / 10).push(digit_char(n % 10))
    }
}

/// The decimal digit character of one value below ten.
fn digit_char_exec(d: u64) -> (r: char)
    requires
        d < 10,
    ensures
        r == digit_char(d as int),
{
    match d {
        0 => '0',
        1 => '1',
        2 => '2',
        3 => '3',
        4 => '4',
        5 => '5',
        6 => '6',
        7 => '7',
        8 => '8',
        _ => '9',
    }
}

/// Appends the decimal spelling of `n`.
fn push_dec(n: u64, out: &mut Vec<char>)
    ensures
        final(out)@ == old(out)@ + dec_digits(n as int),
    decreases n,
{
    if n < 10 {
        out.push(digit_char_exec(n));
        proof {
            assert(final(out)@ =~= old(out)@ + dec_digits(n as int));
        }
    } else {
        push_dec(n / 10, out);
        out.push(digit_char_exec(n % 10));
        proof {
            assert(final(out)@ =~= old(out)@ + dec_digits(n as int));
        }
    }
}

/// The decimal spelling of a number.
pub fn u64_to_string(n: u64) -> (r: String)
    ensures
        r@ == dec_digits(n as int),
{
    let mut cs: Vec<char> = Vec::new();
    push_dec(n, &mut cs);
    proof {
        assert(cs@ =~= dec_digits(n as int));
    }
    crate::text::string_from_chars(&cs)
}

/// Static application configuration.
#[derive(Debug, Clone)]
pub struct SysConfig {
    pub app_name: &'static str,
    pub version: &'static str,
    pub authors: &'static str,
    pub copyright_year: u16,
}

impl SysConfig {
    /// The banner the application prints about itself.
    pub fn app_info(&self) -> (r: String)
        ensures
            r@ == "----------------------------------------\n"@ + self.app_name@
                + " - Version: "@ + self.version@ + "\nAuthors: "@ + self.authors@
                + "\nCopyright "@ + dec_digits(self.copyright_year as int) + " "@ + self.authors@
                + "\n\nMade with Sapphillon\nLicensed under the GNU General Public License v3.0 or later\nhttps://github.com/Walkmana-25/Sapphillon\n----------------------------------------"@,
    {
        let mut s = String::from_str("----------------------------------------\n");
        s.append(self.app_name);
        s.append(" - Version: ");
        s.append(self.version);
        s.append("\nAuthors: ");
        s.append(self.authors);
        s.append("\nCopyright ");
        let year = u64_to_string(self.copyright_year as u64);
        s.append(year.as_str());
        s.append(" ");
        s.append(self.authors);
        s.append(
            "\n\nMade with Sapphillon\nLicensed under the GNU General Public License v3.0 or later\nhttps://github.com/Walkmana-25/Sapphillon\n----------------------------------------",
        );
        s
    }
}

/// Placeholder carrier of the version lookup service; the transport
/// implementation lives with the surrounding process.
#[derive(Debug, Default)]
pub struct MyVersionService;

/// Helper test setups use to name an in-memory database connection.
#[derive(Debug)]
pub struct TestState {
    pub db_url: &'static str,
}

impl TestState {
    /// A state naming a fresh shared in-memory database.
    pub fn new_in_memory() -> (r: Self)
        ensures
            r.db_url@ == "sqlite::memory:?cache=shared"@,
    {
        Self { db_url: "sqlite::memory:?cache=shared" }
    }
}

} // verus!
