//! The runtime environment the tool is configured for, parsed from the
//! `APP_ENVIRONMENT` variable's value.  Loading the configuration files
//! themselves is I/O and lives outside the library.

use vstd::prelude::*;
use vstd::string::StrSliceExecFns;
use vstd::string::StringExecFns;

verus! {

/// The runtime environment: local development or production.
#[derive(Clone, Copy, Debug, PartialEq, Eq, Structural)]
pub enum Environment {
    Local,
    Production,
}

/// `c` folded to lower case if it is an ASCII capital letter, else `c`.
pub open spec fn spec_lower_char(c: char) -> char {
    match c {
        'A' => 'a',
        'B' => 'b',
        'C' => 'c',
        'D' => 'd',
        'E' => 'e',
        'F' => 'f',
        'G' => 'g',
        'H' => 'h',
        'I' => 'i',
        'J' => 'j',
        'K' => 'k',
        'L' => 'l',
        'M' => 'm',
        'N' => 'n',
        'O' => 'o',
        'P' => 'p',
        'Q' => 'q',
        'R' => 'r',
        'S' => 's',
        'T' => 't',
        'U' => 'u',
        'V' => 'v',
        'W' => 'w',
        'X' => 'x',
        'Y' => 'y',
        'Z' => 'z',
        _ => c,
    }
}

/// `s` with every ASCII capital letter folded to lower case.
pub open spec fn spec_lower(s: Seq<char>) -> Seq<char> {
    s.map_values(|c: char| spec_lower_char(c))
}

/// `c` folded to lower case.
fn lower_char(c: char) -> (r: char)
    ensures
        r == spec_lower_char(c),
{
    match c {
        'A' => 'a',
        'B' => 'b',
        'C' => 'c',
        'D' => 'd',
        'E' => 'e',
        'F' => 'f',
        'G' => 'g',
        'H' => 'h',
        'I' => 'i',
        'J' => 'j',
        'K' => 'k',
        'L' => 'l',
        'M' => 'm',
        'N' => 'n',
        'O' => 'o',
        'P' => 'p',
        'Q' => 'q',
        'R' => 'r',
        'S' => 's',
        'T' => 't',
        'U' => 'u',
        'V' => 'v',
        'W' => 'w',
        'X' => 'x',
        'Y' => 'y',
        'Z' => 'z',
        _ => c,
    }
}

/// Whether `value`, folded to ASCII lower case, equals `target`.
#[verifier::loop_isolation(false)]
fn eq_ignore_ascii_case(value: &str, target: &str) -> (r: bool)
    ensures
        r == (spec_lower(value@) == target@),
{
    let vlen = value.unicode_len();
    let tlen = target.unicode_len();
    if vlen != tlen {
        proof {
            assert(spec_lower(value@).len() == value@.len());
        }
        return false;
    }
    let mut i: usize = 0;
    while i < vlen
        invariant
            0 <= i <= vlen,
            forall|k: int| 0 <= k < i ==> spec_lower_char(#[trigger] value@[k]) == target@[k],
        decreases vlen - i,
    {
        if lower_char(value.get_char(i)) != target.get_char(i) {
            proof {
                assert(spec_lower(value@)[i as int] == spec_lower_char(value@[i as int]));
            }
            return false;
        }
        i = i + 1;
    }
    proof {
        assert(spec_lower(value@) =~= target@);
    }
    true
}

impl Environment {
    /// The canonical name of the environment.
    pub fn as_str(&self) -> (r: &'static str)
        ensures
            self is Local ==> r@ == "local"@,
            self is Production ==> r@ == "production"@,
    {
        match self {
            Environment::Local => "local",
            Environment::Production => "production",
        }
    }

    /// Parses an environment name, ignoring ASCII case.  Any other name is
    /// rejected with a message naming the value that was given.
    pub fn try_from(value: &str) -> (r: Result<Environment, String>)
        ensures
            spec_lower(value@) == "local"@ ==> (r matches Ok(e) && e is Local),
            spec_lower(value@) == "production"@ ==> (r matches Ok(e) && e is Production),
            spec_lower(value@) != "local"@ && spec_lower(value@) != "production"@ ==> (
            r matches Err(m) && m@ == value@
                + " is not a supported environment, Use either `local` or `production`"@),
    {
        proof {
            reveal_strlit("local");
            reveal_strlit("production");
            assert("local"@.len() != "production"@.len());
        }
        if eq_ignore_ascii_case(value, "local") {
            Ok(Environment::Local)
        } else if eq_ignore_ascii_case(value, "production") {
            Ok(Environment::Production)
        } else {
            Err(
                value.to_owned().concat(
                    " is not a supported environment, Use either `local` or `production`",
                ),
            )
        }
    }
}

} // verus!
