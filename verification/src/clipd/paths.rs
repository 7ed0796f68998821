//! Where the daemon keeps its files.

use vstd::prelude::*;
use vstd::string::*;

use crate::numeral;
use crate::pathname;
use crate::text;

verus! {

/// The history's file below the data directory: that is `$XDG_DATA_HOME`, or
/// `.local/share` in the home directory.
pub open spec fn db_file(data_home: Option<Seq<char>>, home: Option<Seq<char>>) -> Option<
    Seq<char>,
> {
    match (data_home, home) {
        (Some(d), _) => Some(pathname::join(pathname::join(d, "zofi"@), "clipboard.db"@)),
        (None, Some(h)) => Some(
            pathname::join(
                pathname::join(pathname::join(h, ".local/share"@), "zofi"@),
                "clipboard.db"@,
            ),
        ),
        (None, None) => None,
    }
}

/// The history's file; none where neither variable is set.
pub fn db_path(data_home: Option<&str>, home: Option<&str>) -> (r: Option<String>)
    ensures
        text::opt(r) == db_file(text::opt_str(data_home), text::opt_str(home)),
{
    let base = match data_home {
        Some(d) => d.to_owned(),
        None => match home {
            Some(h) => pathname::join_path(h, ".local/share"),
            None => {
                return None;
            },
        },
    };
    let dir = pathname::join_path(base.as_str(), "zofi");
    Some(pathname::join_path(dir.as_str(), "clipboard.db"))
}

/// The directory for files of the running session.
pub open spec fn runtime_base(runtime_dir: Option<Seq<char>>) -> Seq<char> {
    match runtime_dir {
        Some(d) => d,
        None => "/tmp"@,
    }
}

fn runtime_dir_of(runtime_dir: Option<&str>) -> (r: &str)
    ensures
        r@ == runtime_base(text::opt_str(runtime_dir)),
{
    match runtime_dir {
        Some(d) => d,
        None => "/tmp",
    }
}

/// The file that holds the daemon's process id.
pub fn pid_path(runtime_dir: Option<&str>) -> (r: String)
    ensures
        r@ == pathname::join(runtime_base(text::opt_str(runtime_dir)), "zofi-clipd.pid"@),
{
    pathname::join_path(runtime_dir_of(runtime_dir), "zofi-clipd.pid")
}

/// The socket that the daemon answers on.
pub fn sock_path(runtime_dir: Option<&str>) -> (r: String)
    ensures
        r@ == pathname::join(runtime_base(text::opt_str(runtime_dir)), "zofi-clipd.sock"@),
{
    pathname::join_path(runtime_dir_of(runtime_dir), "zofi-clipd.sock")
}

/// The process id that the daemon's file holds.
pub fn parse_pid(content: &str) -> (r: Option<i32>)
    ensures
        match r {
            Some(v) => numeral::parse_signed(
                text::trim(content@),
                i32::MIN as int,
                i32::MAX as int,
            ) == Some(v as int),
            None => numeral::parse_signed(
                text::trim(content@),
                i32::MIN as int,
                i32::MAX as int,
            ) is None,
        },
{
    let v = text::chars_of(content);
    numeral::parse_i32(text::trimmed(v.as_slice()))
}

/// The history lies below the data directory that is given, else below that of
/// the home directory; without either it has no place.
pub proof fn law_history_place(data_home: Option<Seq<char>>, home: Option<Seq<char>>)
    ensures
        data_home is Some ==> db_file(data_home, home) == Some(
            pathname::join(pathname::join(data_home->0, "zofi"@), "clipboard.db"@),
        ),
        data_home is None && home is Some ==> db_file(data_home, home) == Some(
            pathname::join(
                pathname::join(pathname::join(home->0, ".local/share"@), "zofi"@),
                "clipboard.db"@,
            ),
        ),
        data_home is None && home is None ==> db_file(data_home, home) is None,
        data_home is Some ==> runtime_base(data_home) == data_home->0,
        runtime_base(None) == "/tmp"@,
{
}

} // verus!
