//! Installation hints: the platform-appropriate suggestion lines shown
//! when a requested version cannot be found anywhere.

use vstd::prelude::*;

use crate::platform::Platform;

verus! {

/// `s` with every `'.'` removed.
pub open spec fn without_dots(s: Seq<char>) -> Seq<char>
    decreases s.len(),
{
    if s.len() == 0 {
        Seq::<char>::empty()
    } else {
        without_dots(s.drop_last()) + (if s.last() == '.' {
            Seq::<char>::empty()
        } else {
            seq![s.last()]
        })
    }
}

/// Removes every `'.'` from a version string, as package names on some
/// systems write versions.
pub fn strip_dots(s: &str) -> (r: String)
    ensures
        r@ == without_dots(s@),
{
    let cs = crate::version::str_chars(s);
    let n = cs.len();
    let mut out = String::new();
    let mut i: usize = 0;
    while i < n
        invariant
            i <= n,
            n == cs@.len(),
            cs@ == s@,
            out@ == without_dots(s@.take(i as int)),
        decreases n - i,
    {
        if cs[i] != '.' {
            let piece = s.substring_char(i, i + 1);
            out.append(piece);
        }
        proof {
            let cur = s@.take(i + 1);
            assert(cur.drop_last() =~= s@.take(i as int));
            assert(cur.last() == s@[i as int]);
            if s@[i as int] != '.' {
                assert(s@.subrange(i as int, i + 1) =~= seq![s@[i as int]]);
                assert(out@ =~= without_dots(cur));
            } else {
                assert(out@ =~= without_dots(cur));
            }
        }
        i = i + 1;
    }
    proof {
        assert(s@.take(n as int) =~= s@);
    }
    out
}

/// The suggestion command lines for installing a missing version,
/// appropriate to the platform. Advisory text only.
pub fn installation_hint_lines(version: &str, platform: Platform) -> (r: Vec<String>)
    ensures
        match platform {
            Platform::Linux => {
                &&& r@.len() == 5
                &&& r@[0]@ == "dnf search php"@ + version@ + " php"@ + without_dots(version@)
                &&& r@[1]@ == "apt search php"@ + version@
                &&& r@[2]@ == "zypper search php"@ + version@
                &&& r@[3]@ == "Remi (RHEL/Fedora/CentOS): https://rpms.remirepo.net/"@
                &&& r@[4]@
                    == "Ondrej PPA (Ubuntu/Debian): https://launchpad.net/~ondrej/+archive/ubuntu/php"@
            },
            Platform::MacOS => {
                &&& r@.len() == 3
                &&& r@[0]@ == "brew install php@"@ + version@
                &&& r@[1]@ == "brew tap shivammathur/php"@
                &&& r@[2]@ == "brew install shivammathur/php/php@"@ + version@
            },
            Platform::BSD => {
                &&& r@.len() == 3
                &&& r@[0]@ == "pkg search php"@ + without_dots(version@)
                &&& r@[1]@ == "pkg install php"@ + without_dots(version@)
                &&& r@[2]@ == "Or check your BSD's ports collection"@
            },
            Platform::Other => {
                &&& r@.len() == 2
                &&& r@[0]@ == "Check your system's package manager for PHP "@ + version@
                &&& r@[1]@ == "Or download from PHP.net"@
            },
        },
{
    let mut r: Vec<String> = Vec::new();
    match platform {
        Platform::Linux => {
            let nodots = strip_dots(version);
            let mut l0 = String::from_str("dnf search php");
            l0.append(version);
            l0.append(" php");
            l0.append(nodots.as_str());
            r.push(l0);
            let mut l1 = String::from_str("apt search php");
            l1.append(version);
            r.push(l1);
            let mut l2 = String::from_str("zypper search php");
            l2.append(version);
            r.push(l2);
            r.push(String::from_str("Remi (RHEL/Fedora/CentOS): https://rpms.remirepo.net/"));
            r.push(
                String::from_str(
                    "Ondrej PPA (Ubuntu/Debian): https://launchpad.net/~ondrej/+archive/ubuntu/php",
                ),
            );
        },
        Platform::MacOS => {
            let mut l0 = String::from_str("brew install php@");
            l0.append(version);
            r.push(l0);
            r.push(String::from_str("brew tap shivammathur/php"));
            let mut l2 = String::from_str("brew install shivammathur/php/php@");
            l2.append(version);
            r.push(l2);
        },
        Platform::BSD => {
            let nodots = strip_dots(version);
            let mut l0 = String::from_str("pkg search php");
            l0.append(nodots.as_str());
            r.push(l0);
            let mut l1 = String::from_str("pkg install php");
            l1.append(nodots.as_str());
            r.push(l1);
            r.push(String::from_str("Or check your BSD's ports collection"));
        },
        Platform::Other => {
            let mut l0 = String::from_str("Check your system's package manager for PHP ");
            l0.append(version);
            r.push(l0);
            r.push(String::from_str("Or download from PHP.net"));
        },
    }
    r
}

} // verus!
