use vstd::prelude::*;
use crate::text::chars_of;

verus! {

/// The position of the first occurrence of a character, if any.
pub open spec fn index_of(s: Seq<char>, c: char) -> Option<int>
    decreases s.len(),
{
    if s.len() == 0 {
        None
    } else if s[0] == c {
        Some(0)
    } else {
        match index_of(s.drop_first(), c) {
            Some(i) => Some(i + 1),
            None => None,
        }
    }
}

/// Why a `[[username@]hostname:]path` argument was rejected.
#[derive(Clone, Copy, Debug, PartialEq, Eq, Structural)]
pub enum RemoteDescError {
    MissingUsername,
    MissingHostname,
    MissingPath,
}

/// The parts of a `[[username@]hostname:]path` argument: username, hostname and path.
/// The first colon separates the host part from the path, except for a Windows drive letter
/// (a single one-byte character followed by nothing or a backslash), and the first `@` in the
/// host part separates the username from the hostname.
pub open spec fn spec_parse_remote(s: Seq<char>) -> Result<(Seq<char>, Seq<char>, Seq<char>), RemoteDescError> {
    let parts: (Seq<char>, Seq<char>, Seq<char>) = match index_of(s, ':') {
        None => (Seq::empty(), Seq::empty(), s),
        Some(i) => {
            let a = s.take(i);
            let b = s.skip(i + 1);
            if a.len() == 1 && (a[0] as u32) < 128 && (b.len() == 0 || b[0] == '\\') {
                (Seq::empty(), Seq::empty(), s)
            } else {
                match index_of(a, '@') {
                    None => (Seq::empty(), a, b),
                    Some(j) => (a.take(j), a.skip(j + 1), b),
                }
            }
        }
    };
    let has_host_part = match index_of(s, ':') {
        None => false,
        Some(i) => !(i == 1 && (s[0] as u32) < 128 && (s.skip(i + 1).len() == 0 || s.skip(i + 1)[0] == '\\')),
    };
    let has_user = has_host_part && index_of(s.take(index_of(s, ':')->0), '@') is Some;
    if has_user && parts.0.len() == 0 {
        Err(RemoteDescError::MissingUsername)
    } else if has_host_part && parts.1.len() == 0 {
        Err(RemoteDescError::MissingHostname)
    } else if parts.2.len() == 0 {
        Err(RemoteDescError::MissingPath)
    } else {
        Ok(parts)
    }
}

pub(crate) fn find_char(s: &Vec<char>, start: usize, end: usize, c: char) -> (r: Option<usize>)
    requires
        start <= end <= s@.len(),
    ensures
        match r {
            Some(i) => index_of(s@.subrange(start as int, end as int), c) == Some((i - start) as int) && start <= i < end,
            None => index_of(s@.subrange(start as int, end as int), c) is None,
        },
    decreases end - start,
{
    if start == end {
        return None;
    }
    assert(s@.subrange(start as int, end as int).drop_first() =~= s@.subrange(start + 1, end as int));
    if s[start] == c {
        Some(start)
    } else {
        find_char(s, start + 1, end, c)
    }
}

pub(crate) fn substring(s: &str, cs: &Vec<char>, from: usize, to: usize) -> (r: String)
    requires
        cs@ == s@,
        from <= to <= cs@.len(),
    ensures
        r@ == s@.subrange(from as int, to as int),
{
    String::from_str(s.substring_char(from, to))
}

/// Splits a `[[username@]hostname:]path` argument into username, hostname and path.
pub fn parse_remote(s: &str) -> (r: Result<(String, String, String), RemoteDescError>)
    ensures
        match (r, spec_parse_remote(s@)) {
            (Ok((u, h, p)), Ok((su, sh, sp))) => u@ == su && h@ == sh && p@ == sp,
            (Err(e), Err(se)) => e == se,
            _ => false,
        },
{
    let cs = chars_of(s);
    let n = cs.len();
    assert(cs@.subrange(0, n as int) =~= s@);
    let (username, hostname, path, has_host_part, has_user) = match find_char(&cs, 0, n, ':') {
        None => (String::new(), String::new(), String::from_str(s), false, false),
        Some(i) => {
            let b_is_drive_rest = i + 1 == n || cs[i + 1] == '\\';
            assert(s@.skip(i + 1) =~= s@.subrange(i + 1, n as int));
            if i == 1 && (cs[0] as u32) < 128 && b_is_drive_rest {
                assert(s@.take(1).len() == 1 && s@.take(1)[0] == s@[0]);
                (String::new(), String::new(), String::from_str(s), false, false)
            } else {
                let path = substring(s, &cs, i + 1, n);
                assert(s@.take(i as int) =~= s@.subrange(0, i as int));
                assert(!(s@.take(i as int).len() == 1 && (s@.take(i as int)[0] as u32) < 128
                    && (s@.skip(i + 1).len() == 0 || s@.skip(i + 1)[0] == '\\')));
                match find_char(&cs, 0, i, '@') {
                    None => (String::new(), substring(s, &cs, 0, i), path, true, false),
                    Some(j) => {
                        assert(s@.take(i as int).take(j as int) =~= s@.subrange(0, j as int));
                        assert(s@.take(i as int).skip(j + 1) =~= s@.subrange(j + 1, i as int));
                        (substring(s, &cs, 0, j), substring(s, &cs, j + 1, i), path, true, true)
                    }
                }
            }
        }
    };
    if has_user && username.as_str().unicode_len() == 0 {
        return Err(RemoteDescError::MissingUsername);
    }
    if has_host_part && hostname.as_str().unicode_len() == 0 {
        return Err(RemoteDescError::MissingHostname);
    }
    if path.as_str().unicode_len() == 0 {
        return Err(RemoteDescError::MissingPath);
    }
    Ok((username, hostname, path))
}

/// Describes a local or remote path, parsed from a `[[username@]hostname:]path` argument.
/// An empty hostname means a local path.
#[derive(Debug, Clone, PartialEq, Eq, Default)]
pub struct RemotePathDesc {
    pub username: String,
    pub hostname: String,
    /// A path in the syntax of the (possibly remote) system it is on.
    pub path: String,
}

impl RemotePathDesc {
    /// Parses a `[[username@]hostname:]path` argument.
    pub fn from_str(s: &str) -> (r: Result<RemotePathDesc, String>)
        ensures
            match (r, spec_parse_remote(s@)) {
                (Ok(d), Ok((u, h, p))) => d.username@ == u && d.hostname@ == h && d.path@ == p,
                (Err(e), Err(RemoteDescError::MissingUsername)) => e@ == "Missing username"@,
                (Err(e), Err(RemoteDescError::MissingHostname)) => e@ == "Missing hostname"@,
                (Err(e), Err(RemoteDescError::MissingPath)) => e@ == "Path must be specified"@,
                _ => false,
            },
    {
        match parse_remote(s) {
            Ok((username, hostname, path)) => Ok(RemotePathDesc { username, hostname, path }),
            Err(RemoteDescError::MissingUsername) => Err(String::from_str("Missing username")),
            Err(RemoteDescError::MissingHostname) => Err(String::from_str("Missing hostname")),
            Err(RemoteDescError::MissingPath) => Err(String::from_str("Path must be specified")),
        }
    }
}

/// Describes a local or remote folder, parsed from a `[[username@]hostname:]folder` argument.
/// An empty hostname means a local folder.
#[derive(Debug, Clone, PartialEq, Eq, Default)]
pub struct RemoteFolderDesc {
    pub username: String,
    pub hostname: String,
    /// A folder path in the syntax of the (possibly remote) system it is on.
    pub folder: String,
}

impl RemoteFolderDesc {
    /// Parses a `[[username@]hostname:]folder` argument.
    pub fn from_str(s: &str) -> (r: Result<RemoteFolderDesc, String>)
        ensures
            match (r, spec_parse_remote(s@)) {
                (Ok(d), Ok((u, h, p))) => d.username@ == u && d.hostname@ == h && d.folder@ == p,
                (Err(e), Err(RemoteDescError::MissingUsername)) => e@ == "Missing username"@,
                (Err(e), Err(RemoteDescError::MissingHostname)) => e@ == "Missing hostname"@,
                (Err(e), Err(RemoteDescError::MissingPath)) => e@ == "Folder must be specified"@,
                _ => false,
            },
    {
        match parse_remote(s) {
            Ok((username, hostname, folder)) => Ok(RemoteFolderDesc { username, hostname, folder }),
            Err(RemoteDescError::MissingUsername) => Err(String::from_str("Missing username")),
            Err(RemoteDescError::MissingHostname) => Err(String::from_str("Missing hostname")),
            Err(RemoteDescError::MissingPath) => Err(String::from_str("Folder must be specified")),
        }
    }
}

} // verus!
