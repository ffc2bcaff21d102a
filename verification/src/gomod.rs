//! Reading the toolchain version out of a `go.mod` file: the first line of
//! the form `go <major>.<minor>` or `go <major>.<minor>.<patch>` names the
//! version. The file I/O stays with the surrounding program; this module
//! works on the lines.
use vstd::prelude::*;
use vstd::string::StrSliceExecFns;
use vstd::string::StringExecFns;

use crate::strutil;
use crate::strutil::spec_split;

verus! {

pub open spec fn spec_is_digit(c: char) -> bool {
    48 <= c as u32 <= 57
}

pub open spec fn spec_all_digits(s: Seq<char>) -> bool {
    s.len() > 0 && forall|i: int| 0 <= i < s.len() ==> spec_is_digit(#[trigger] s[i])
}

/// Two or three dot-separated runs of digits.
pub open spec fn spec_is_go_version(s: Seq<char>) -> bool {
    let ps = spec_split(s, '.');
    (ps.len() == 2 || ps.len() == 3) && forall|i: int|
        0 <= i < ps.len() ==> spec_all_digits(#[trigger] ps[i])
}

/// The version a go.mod line declares, when it is exactly `go <version>`.
pub open spec fn spec_go_line_version(line: Seq<char>) -> Option<Seq<char>> {
    if line.len() > 3 && line.take(3) == "go "@ && spec_is_go_version(line.skip(3)) {
        Some(line.skip(3))
    } else {
        None
    }
}

/// The first line that declares a version, walked in order.
pub open spec fn spec_go_version_of_lines(lines: Seq<Seq<char>>) -> Option<Seq<char>>
    decreases lines.len(),
{
    if lines.len() == 0 {
        None
    } else {
        match spec_go_line_version(lines[0]) {
            Some(v) => Some(v),
            None => spec_go_version_of_lines(lines.drop_first()),
        }
    }
}

fn is_digits(s: &str) -> (r: bool)
    ensures
        r == spec_all_digits(s@),
{
    let n = s.unicode_len();
    if n == 0 {
        return false;
    }
    let mut i: usize = 0;
    while i < n
        invariant
            i <= n,
            n == s@.len(),
            forall|k: int| 0 <= k < i ==> spec_is_digit(#[trigger] s@[k]),
        decreases n - i,
    {
        let c = s.get_char(i);
        let v = c as u32;
        if v < 48 || v > 57 {
            return false;
        }
        i = i + 1;
    }
    true
}

/// Parse one go.mod line; exactly the lines `go <version>` yield a version.
pub fn parse_go_version_line(line: &str) -> (r: Option<String>)
    ensures
        match r {
            Some(v) => spec_go_line_version(line@) == Some(v@),
            None => spec_go_line_version(line@) is None,
        },
{
    let n = line.unicode_len();
    if n <= 3 {
        return None;
    }
    let prefix = line.substring_char(0, 3);
    proof {
        reveal_strlit("go ");
        assert(prefix@ =~= line@.take(3));
    }
    if !strutil::str_eq(prefix, "go ") {
        return None;
    }
    let version = line.substring_char(3, n);
    proof {
        assert(version@ =~= line@.skip(3));
    }
    let pieces = strutil::split_str(version, '.');
    let np = pieces.len();
    if np != 2 && np != 3 {
        proof {
            assert(spec_split(line@.skip(3), '.').len() == np);
            assert(!spec_is_go_version(line@.skip(3)));
        }
        return None;
    }
    let mut i: usize = 0;
    while i < np
        invariant
            i <= np,
            np == pieces@.len(),
            np == 2 || np == 3,
            version@ == line@.skip(3),
            line@.len() > 3 && line@.take(3) == "go "@,
            pieces.deep_view() == spec_split(version@, '.'),
            forall|k: int|
                0 <= k < i ==> spec_all_digits(#[trigger] pieces.deep_view()[k]),
        decreases np - i,
    {
        proof {
            assert(pieces.deep_view()[i as int] == pieces@[i as int]@);
        }
        if !is_digits(pieces[i].as_str()) {
            proof {
                assert(!spec_all_digits(spec_split(line@.skip(3), '.')[i as int]));
                assert(!spec_is_go_version(line@.skip(3)));
            }
            return None;
        }
        i = i + 1;
    }
    proof {
        assert(spec_is_go_version(line@.skip(3)));
    }
    Some(version.to_owned())
}

/// The version the first declaring line names, if any line does.
pub fn go_version_from_lines(lines: &Vec<String>) -> (r: Option<String>)
    ensures
        match r {
            Some(v) => spec_go_version_of_lines(lines.deep_view()) == Some(v@),
            None => spec_go_version_of_lines(lines.deep_view()) is None,
        },
{
    let ghost ls = lines.deep_view();
    let n = lines.len();
    let mut i: usize = 0;
    proof {
        assert(ls.skip(0) =~= ls);
    }
    while i < n
        invariant
            i <= n,
            n == ls.len(),
            ls == lines.deep_view(),
            spec_go_version_of_lines(ls) == spec_go_version_of_lines(ls.skip(i as int)),
        decreases n - i,
    {
        proof {
            let tail = ls.skip(i as int);
            assert(tail.len() > 0 && tail[0] == ls[i as int]);
            assert(tail.drop_first() =~= ls.skip(i as int + 1));
            assert(ls[i as int] == lines@[i as int]@);
        }
        match parse_go_version_line(lines[i].as_str()) {
            Some(v) => {
                return Some(v);
            },
            None => {},
        }
        i = i + 1;
    }
    proof {
        assert(ls.skip(n as int) =~= Seq::<Seq<char>>::empty());
    }
    None
}

/// Which toolchain version an up step should install: the configured
/// version wins, else the version the go.mod file declares, else the
/// manager's floating newest.
pub fn choose_version(configured: Option<&str>, detected: Option<&str>) -> (r: String)
    ensures
        r@ == match configured {
            Some(c) => c@,
            None => match detected {
                Some(d) => d@,
                None => "latest"@,
            },
        },
{
    match configured {
        Some(c) => c.to_owned(),
        None => match detected {
            Some(d) => d.to_owned(),
            None => {
                proof {
                    reveal_strlit("latest");
                }
                String::from_str("latest")
            },
        },
    }
}

} // verus!
