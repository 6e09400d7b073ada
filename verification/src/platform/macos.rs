//! Well-known interpreter locations on macOS systems.

use vstd::prelude::*;

verus! {

/// The fixed paths where the interpreter commonly lives.
pub fn get_common_php_paths() -> (r: Vec<&'static str>)
    ensures
        r@.len() == 3,
        r@[0]@ == "/usr/bin/php"@,
        r@[1]@ == "/usr/local/bin/php"@,
        r@[2]@ == "/opt/homebrew/bin/php"@,
{
    let mut r: Vec<&'static str> = Vec::new();
    r.push("/usr/bin/php");
    r.push("/usr/local/bin/php");
    r.push("/opt/homebrew/bin/php");
    r
}

/// The glob-style patterns that discovery scans.
pub fn get_scan_patterns() -> (r: Vec<&'static str>)
    ensures
        r@.len() == 4,
        r@[0]@ == "/usr/local/Cellar/php*"@,
        r@[1]@ == "/opt/homebrew/Cellar/php*"@,
        r@[2]@ == "/usr/local/bin/php*"@,
        r@[3]@ == "/opt/homebrew/bin/php*"@,
{
    let mut r: Vec<&'static str> = Vec::new();
    r.push("/usr/local/Cellar/php*");
    r.push("/opt/homebrew/Cellar/php*");
    r.push("/usr/local/bin/php*");
    r.push("/opt/homebrew/bin/php*");
    r
}

} // verus!
