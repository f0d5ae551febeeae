use vstd::prelude::*;
use base64::Engine;
use aes_gcm::Aes128Gcm;
use aes_gcm::aead::{KeyInit, OsRng};
use crate::boss_doer_interface::{HANDSHAKE_COMPLETED_MSG, HANDSHAKE_STARTED_MSG, VERSION};
use crate::text::{concat, concat_all, contains_text, has_infix, has_prefix, starts_with, text_after, chars_of, decimal, decimal_string, digit_char};
use crate::remote_desc::index_of;

verus! {

/// Where rjrssync is deployed on a Unix remote (kept across reboots, unlike `/tmp`).
pub const REMOTE_TEMP_UNIX: &'static str = "/var/tmp";

/// Where rjrssync is deployed on a Windows remote.
pub const REMOTE_TEMP_WINDOWS: &'static str = "%TEMP%";

/// How much (serialized) data may wait in each channel between the boss and a doer.
pub const BOSS_DOER_CHANNEL_MEMORY_CAPACITY: usize = 104857600;

/// The ssh destination for a user (possibly none) and host.
pub open spec fn spec_ssh_target(user: Seq<char>, host: Seq<char>) -> Seq<char> {
    if user.len() == 0 { host } else { user + "@"@ + host }
}

/// The ssh destination names the user, when there is one, then `@`, then the host; with no user
/// it is the host alone. So the user can be read back from before the first `@` of a destination
/// whose user holds no `@`, and the host from after it.
pub proof fn lemma_ssh_target_names_user_and_host(user: Seq<char>, host: Seq<char>)
    ensures
        user.len() == 0 ==> spec_ssh_target(user, host) == host,
        user.len() > 0 ==> {
            let t = spec_ssh_target(user, host);
            &&& t.len() == user.len() + 1 + host.len()
            &&& t.take(user.len() as int) == user
            &&& t[user.len() as int] == '@'
            &&& t.skip(user.len() + 1 as int) == host
        },
{
    reveal_strlit("@");
    if user.len() > 0 {
        let t = spec_ssh_target(user, host);
        assert(t.take(user.len() as int) =~= user);
        assert(t.skip(user.len() + 1 as int) =~= host);
    }
}

/// The ssh destination for a user (possibly none) and host: `user@host`, or just the host.
pub fn ssh_target(user: &str, host: &str) -> (r: String)
    ensures
        r@ == spec_ssh_target(user@, host@),
        user@.len() == 0 ==> r@ == host@,
        user@.len() > 0 ==> {
            &&& r@.len() == user@.len() + 1 + host@.len()
            &&& r@.take(user@.len() as int) == user@
            &&& r@[user@.len() as int] == '@'
            &&& r@.skip(user@.len() + 1 as int) == host@
        },
{
    proof { lemma_ssh_target_names_user_and_host(user@, host@); }
    if user.unicode_len() == 0 {
        String::from_str(host)
    } else {
        proof { reveal_with_fuel(concat_all, 4); }
        concat(&[user, "@", host])
    }
}

/// The arguments that launch a doer: its logging filter, the port to listen on (if one was
/// chosen) and whether to report memory usage.
pub open spec fn spec_doer_args(log_filter: Seq<char>, port: Option<u16>, dump_memory_usage: bool) -> Seq<char> {
    "--doer "@ + (" --log-filter "@ + log_filter + " "@) + " "@
        + (match port { Some(p) => " --port "@ + decimal(p as nat), None => Seq::empty() }) + " "@
        + (if dump_memory_usage { " --dump-memory-usage"@ } else { Seq::empty() })
}

/// The arguments that launch a doer, as `spec_doer_args` says.
pub fn doer_args(log_filter: &str, port: Option<u16>, dump_memory_usage: bool) -> (r: String)
    ensures
        r@ == spec_doer_args(log_filter@, port, dump_memory_usage),
{
    let port_arg = match port {
        Some(p) => {
            let d = decimal_string(p as u64);
            let mut a = String::from_str(" --port ");
            a.append(d.as_str());
            a
        },
        None => String::new(),
    };
    assert(port_arg@ == (match port { Some(p) => " --port "@ + decimal(p as nat), None => Seq::<char>::empty() }));
    let memory_arg = if dump_memory_usage { " --dump-memory-usage" } else { "" };
    proof { reveal_strlit(""); }
    assert(memory_arg@ == (if dump_memory_usage { " --dump-memory-usage"@ } else { Seq::<char>::empty() }));
    let mut r = String::from_str("--doer ");
    r.append(" --log-filter ");
    r.append(log_filter);
    r.append(" ");
    r.append(" ");
    r.append(port_arg.as_str());
    r.append(" ");
    r.append(memory_arg);
    assert(r@ =~= spec_doer_args(log_filter@, port, dump_memory_usage));
    r
}

/// The command run over ssh to launch a deployed doer. It tries the Windows location (which a
/// Unix shell ignores as a comment) and then, on a second line, the Unix one.
pub open spec fn spec_remote_launch_command(doer_args: Seq<char>) -> Seq<char> {
    "echo >/dev/null # >nul & "@ + ("%TEMP%"@ + "\\rjrssync\\rjrssync.exe "@ + doer_args) + "\n"@
        + ("/var/tmp"@ + "/rjrssync/rjrssync "@ + doer_args)
}

/// The command run over ssh to launch a deployed doer, as `spec_remote_launch_command` says.
pub fn remote_launch_command(doer_args: &str) -> (r: String)
    ensures
        r@ == spec_remote_launch_command(doer_args@),
{
    let mut r = String::from_str("echo >/dev/null # >nul & ");
    r.append(REMOTE_TEMP_WINDOWS);
    r.append("\\rjrssync\\rjrssync.exe ");
    r.append(doer_args);
    r.append("\n");
    r.append(REMOTE_TEMP_UNIX);
    r.append("/rjrssync/rjrssync ");
    r.append(doer_args);
    assert(r@ =~= spec_remote_launch_command(doer_args@));
    r
}

/// What a line printed by ssh (or the doer through it) is.
#[derive(Clone, Copy, Debug, PartialEq, Eq, Structural)]
pub enum SshLine {
    /// The doer has started and reports its version.
    HandshakeStarted,
    /// The doer is listening for the network connection and reports its port.
    HandshakeCompleted,
    /// Anything else, such as a prompt or an error from ssh.
    Other,
}

/// Classifies a line by how it starts.
pub fn classify_line(l: &str) -> (r: SshLine)
    ensures
        r == (if has_prefix(l@, HANDSHAKE_STARTED_MSG@) { SshLine::HandshakeStarted }
            else if has_prefix(l@, HANDSHAKE_COMPLETED_MSG@) { SshLine::HandshakeCompleted }
            else { SshLine::Other }),
{
    if starts_with(l, HANDSHAKE_STARTED_MSG) {
        SshLine::HandshakeStarted
    } else if starts_with(l, HANDSHAKE_COMPLETED_MSG) {
        SshLine::HandshakeCompleted
    } else {
        SshLine::Other
    }
}

/// Whether a line from ssh says that rjrssync isn't on the remote (as bash or cmd says it).
pub open spec fn says_not_present(l: Seq<char>) -> bool {
    has_infix(l, "No such file or directory"@) || has_infix(l, "The system cannot find the path specified"@)
        || has_infix(l, "is not recognized as an internal or external command"@)
}

/// Whether a line from ssh says that rjrssync isn't on the remote.
pub fn is_not_present_message(l: &str) -> (r: bool)
    ensures
        r == says_not_present(l@),
{
    contains_text(l, "No such file or directory") || contains_text(l, "The system cannot find the path specified")
        || contains_text(l, "is not recognized as an internal or external command")
}

/// Whether a character is an ASCII digit.
pub open spec fn is_digit(c: char) -> bool {
    '0' <= c && c <= '9'
}

/// The value of a string of decimal digits.
pub open spec fn digits_value(s: Seq<char>) -> int
    decreases s.len(),
{
    if s.len() == 0 { 0 } else { digits_value(s.drop_last()) * 10 + (s.last() as int - '0' as int) }
}

/// The digits of a number: the text without a leading `+`.
pub open spec fn number_digits(s: Seq<char>) -> Seq<char> {
    if s.len() > 0 && s[0] == '+' { s.skip(1) } else { s }
}

/// Whether every character is a digit.
pub open spec fn all_digits(d: Seq<char>) -> bool {
    forall|i: int| 0 <= i < d.len() ==> is_digit(#[trigger] d[i])
}

/// How `str::parse::<u16>` reads a text: an optional `+` and then at least one digit, with a value
/// that fits.
pub open spec fn spec_parse_u16(s: Seq<char>) -> Option<int> {
    let digits = number_digits(s);
    if digits.len() == 0 || !all_digits(digits) {
        None
    } else if digits_value(digits) > 65535 {
        None
    } else {
        Some(digits_value(digits))
    }
}

proof fn lemma_digits_value_grows(s: Seq<char>, i: int)
    requires
        0 <= i <= s.len(),
        forall|j: int| 0 <= j < s.len() ==> is_digit(#[trigger] s[j]),
    ensures
        digits_value(s) >= digits_value(s.take(i)),
        digits_value(s.take(i)) >= 0,
    decreases s.len() - i,
{
    if i < s.len() {
        lemma_digits_value_grows(s, i + 1);
        assert(s.take(i + 1).drop_last() =~= s.take(i));
        lemma_digits_value_nonneg(s.take(i));
    } else {
        assert(s.take(i) =~= s);
        lemma_digits_value_nonneg(s);
    }
}

proof fn lemma_digits_value_nonneg(s: Seq<char>)
    requires
        forall|j: int| 0 <= j < s.len() ==> is_digit(#[trigger] s[j]),
    ensures
        digits_value(s) >= 0,
    decreases s.len(),
{
    if s.len() > 0 {
        lemma_digits_value_nonneg(s.drop_last());
    }
}

/// Parses a port number, as `str::parse::<u16>` does.
pub fn parse_port(s: &str) -> (r: Option<u16>)
    ensures
        match spec_parse_u16(s@) {
            Some(v) => r matches Some(x) && x == v,
            None => r is None,
        },
{
    let cs = chars_of(s);
    let start: usize = if cs.len() > 0 && cs[0] == '+' { 1 } else { 0 };
    let ghost digits = number_digits(s@);
    assert(digits =~= cs@.skip(start as int));
    if start >= cs.len() {
        return None;
    }
    let mut value: u32 = 0;
    let mut i: usize = start;
    while i < cs.len()
        invariant
            cs@ == s@,
            digits == cs@.skip(start as int),
            digits == number_digits(s@),
            start <= i <= cs@.len(),
            value == digits_value(digits.take(i - start)),
            value <= 65535,
            forall|j: int| 0 <= j < i - start ==> is_digit(#[trigger] digits[j]),
        decreases cs.len() - i,
    {
        let c = cs[i];
        if !('0' <= c && c <= '9') {
            assert(digits[i - start] == c);
            assert(!is_digit(digits[i - start]));
            assert(!all_digits(digits));
            assert(spec_parse_u16(s@) is None);
            return None;
        }
        assert(digits.take(i - start + 1).drop_last() =~= digits.take(i - start));
        let d = (c as u32) - ('0' as u32);
        value = value * 10 + d;
        i = i + 1;
        if value > 65535 {
            proof {
                if all_digits(digits) {
                    lemma_digits_value_grows(digits, i - start);
                    assert(digits_value(digits) > 65535);
                }
                assert(spec_parse_u16(s@) is None);
            }
            return None;
        }
    }
    assert(digits.take(digits.len() as int) =~= digits);
    Some(value as u16)
}

/// The parts of a log line from a remote doer: timestamp, level, target and message, split at the
/// first three spaces (as `splitn(4, ' ')` splits).
pub open spec fn spec_split_log_line(l: Seq<char>) -> Option<(Seq<char>, Seq<char>, Seq<char>, Seq<char>)> {
    match index_of(l, ' ') {
        None => None,
        Some(a) => {
            let r1 = l.skip(a + 1);
            match index_of(r1, ' ') {
                None => None,
                Some(b) => {
                    let r2 = r1.skip(b + 1);
                    match index_of(r2, ' ') {
                        None => None,
                        Some(c) => Some((l.take(a), r1.take(b), r2.take(c), r2.skip(c + 1))),
                    }
                },
            }
        },
    }
}

/// Splits off the text before the first space.
fn split_at_space(s: &str) -> (r: Option<(String, String)>)
    ensures
        match index_of(s@, ' ') {
            None => r is None,
            Some(i) => r matches Some((a, b)) && a@ == s@.take(i) && b@ == s@.skip(i + 1),
        },
{
    let cs = chars_of(s);
    assert(cs@.subrange(0, cs@.len() as int) =~= cs@);
    match crate::remote_desc::find_char(&cs, 0, cs.len(), ' ') {
        None => None,
        Some(i) => {
            let a = crate::remote_desc::substring(s, &cs, 0, i);
            let b = text_after(s, i + 1);
            assert(s@.subrange(0, i as int) =~= s@.take(i as int));
            Some((a, b))
        },
    }
}

/// Splits a log line from a remote doer into timestamp, level, target and message.
pub fn split_log_line(l: &str) -> (r: Option<(String, String, String, String)>)
    ensures
        match spec_split_log_line(l@) {
            None => r is None,
            Some((a, b, c, d)) => r matches Some((ra, rb, rc, rd)) && ra@ == a && rb@ == b && rc@ == c && rd@ == d,
        },
{
    let (a, r1) = split_at_space(l)?;
    let (b, r2) = split_at_space(r1.as_str())?;
    let (c, d) = split_at_space(r2.as_str())?;
    Some((a, b, c, d))
}

/// The standard base64 encoding (with padding) of some bytes.
pub uninterp spec fn base64_encoding(bytes: Seq<u8>) -> Seq<char>;

/// The bytes that a standard base64 text decodes to, if it is valid.
pub uninterp spec fn base64_decoding(text: Seq<char>) -> Option<Seq<u8>>;

/// Encodes with `base64::engine::general_purpose::STANDARD.encode`. Trusted: the result is the
/// standard encoding, and decoding it gives the bytes back.
#[verifier::external_body]
fn encode_base64(bytes: &[u8]) -> (r: String)
    requires
        bytes@.len() <= 0x1000_0000,
    ensures
        r@ == base64_encoding(bytes@),
        base64_decoding(r@) == Some(bytes@),
{
    base64::engine::general_purpose::STANDARD.encode(bytes)
}

/// Decodes with `base64::engine::general_purpose::STANDARD.decode`. Trusted: the result is the
/// decoding, failing exactly where the text is not valid base64.
#[verifier::external_body]
fn decode_base64(text: &str) -> (r: Result<Vec<u8>, String>)
    ensures
        match base64_decoding(text@) {
            Some(b) => r matches Ok(v) && v@ == b,
            None => r is Err,
        },
{
    base64::engine::general_purpose::STANDARD.decode(text).map_err(|e| e.to_string())
}

/// Generates a key with `Aes128Gcm::generate_key(&mut OsRng)`. Trusted: the key is 16 random
/// bytes (nothing else is claimed of them).
#[verifier::external_body]
fn new_secret_key() -> (r: Vec<u8>)
    ensures
        r@.len() == 16,
{
    Aes128Gcm::generate_key(&mut OsRng).to_vec()
}

/// The line that gives a doer its secret key: the key in base64, then a newline.
pub fn secret_key_message(key: &[u8]) -> (r: String)
    requires
        key@.len() == 16,
    ensures
        r@ == base64_encoding(key@).push('\n'),
{
    let mut r = encode_base64(key);
    r.append("\n");
    proof { reveal_strlit("\n"); }
    assert(r@ =~= base64_encoding(key@).push('\n'));
    r
}

/// A new secret key for a doer, with the line that gives it to the doer.
pub fn new_secret_key_and_message() -> (r: (Vec<u8>, String))
    ensures
        r.0@.len() == 16,
        r.1@ == base64_encoding(r.0@).push('\n'),
{
    let key = new_secret_key();
    let message = secret_key_message(&key);
    (key, message)
}

/// The key that a doer reads from the line it was given (the line without its last character,
/// the newline): it must decode to exactly 16 bytes.
pub open spec fn spec_read_secret_key(line: Seq<char>) -> Option<Seq<u8>> {
    if line.len() == 0 {
        None
    } else {
        match base64_decoding(line.drop_last()) {
            Some(b) => if b.len() == 16 { Some(b) } else { None },
            None => None,
        }
    }
}

/// Reads the secret key from the line a doer was given.
pub fn read_secret_key(line: &str) -> (r: Result<Vec<u8>, String>)
    ensures
        match spec_read_secret_key(line@) {
            Some(k) => r matches Ok(v) && v@ == k,
            None => r is Err,
        },
{
    let cs = chars_of(line);
    let n = cs.len();
    if n == 0 {
        return Err(String::from_str("Failed to decode secret: empty"));
    }
    let text = crate::remote_desc::substring(line, &cs, 0, n - 1);
    assert(line@.subrange(0, n - 1) =~= line@.drop_last());
    match decode_base64(text.as_str()) {
        Ok(b) => if b.len() == 16 { Ok(b) } else { Err(String::from_str("Failed to decode secret: wrong length")) },
        Err(e) => {
            let mut msg = String::from_str("Failed to decode secret: ");
            msg.append(e.as_str());
            Err(msg)
        },
    }
}

/// What the doer reads is the key that the boss sent.
pub proof fn lemma_secret_key_round_trip(key: Seq<u8>, message: Seq<char>)
    requires
        key.len() == 16,
        message == base64_encoding(key).push('\n'),
        base64_decoding(base64_encoding(key)) == Some(key),
    ensures
        spec_read_secret_key(message) == Some(key),
{
    assert(message.drop_last() =~= base64_encoding(key));
}


/// Which output stream of ssh a line came from.
#[derive(Clone, Copy, Debug, PartialEq, Eq, Structural)]
pub enum SshStream {
    Stdout,
    Stderr,
}

/// What the threads reading ssh's output report.
pub enum SshEvent {
    /// An ordinary line (shown to the user).
    Line(String),
    /// A line that starts the handshake.
    HandshakeStarted(String),
    /// A line that completes the handshake.
    HandshakeCompleted(String),
    /// Reading the stream failed.
    ReadError(String),
    /// The stream ended.
    StreamClosed,
    /// Both streams ended before the handshake finished.
    AllStreamsClosed,
}

/// How launching a doer over ssh ends, or what it needs next.
pub enum LaunchStep {
    /// Keep waiting for output.
    Continue,
    /// Generate a secret key and send it to the doer (then report it with `secret_sent`).
    SendSecret,
    /// rjrssync isn't on the remote.
    NotPresentOnRemote,
    /// The remote rjrssync is another version.
    HandshakeIncompatibleVersion { expected: String, actual: String },
    /// The conversation with the doer failed.
    CommunicationError(String),
    /// ssh ended before the handshake.
    ExitedUnexpectedly,
    /// The doer is ready for the network connection on this port.
    Success { port: u16 },
}

/// The progress of the handshake with a doer launched over ssh: each of stdout and stderr must
/// pass the handshake, and the secret key must have been sent.
pub struct Handshake {
    pub stdout_done: bool,
    pub stderr_done: bool,
    pub secret_sent: bool,
}

pub open spec fn stream_name(s: SshStream) -> Seq<char> {
    match s {
        SshStream::Stdout => "stdout"@,
        SshStream::Stderr => "stderr"@,
    }
}

impl Handshake {
    /// Nothing has passed the handshake yet.
    pub fn new() -> (r: Handshake)
        ensures
            !r.stdout_done && !r.stderr_done && !r.secret_sent,
    {
        Handshake { stdout_done: false, stderr_done: false, secret_sent: false }
    }

    /// Handles one event from the ssh output.
    pub fn step(&mut self, stream: SshStream, event: SshEvent) -> (r: LaunchStep)
        requires
            event matches SshEvent::HandshakeStarted(l) ==> has_prefix(l@, HANDSHAKE_STARTED_MSG@),
            event matches SshEvent::HandshakeCompleted(l) ==> has_prefix(l@, HANDSHAKE_COMPLETED_MSG@),
        ensures
            final(self).secret_sent == old(self).secret_sent,
            match event {
                SshEvent::Line(l) => *final(self) == *old(self)
                    && (if says_not_present(l@) { r is NotPresentOnRemote } else { r is Continue }),
                SshEvent::HandshakeStarted(l) => *final(self) == *old(self) && ({
                    let version = l@.skip(HANDSHAKE_STARTED_MSG@.len() as int);
                    if version != VERSION@ {
                        r matches LaunchStep::HandshakeIncompatibleVersion { expected, actual }
                            && expected@ == VERSION@ && actual@ == version
                    } else if stream == SshStream::Stdout {
                        r is SendSecret
                    } else {
                        r is Continue
                    }
                }),
                SshEvent::HandshakeCompleted(l) => {
                    &&& final(self).stdout_done == (old(self).stdout_done || stream == SshStream::Stdout)
                    &&& final(self).stderr_done == (old(self).stderr_done || stream == SshStream::Stderr)
                    &&& match spec_parse_u16(l@.skip(HANDSHAKE_COMPLETED_MSG@.len() as int)) {
                        None => r matches LaunchStep::CommunicationError(e)
                            && e@ == "Failed to parse port number from line '"@ + l@ + "'"@,
                        Some(p) => if final(self).stdout_done && final(self).stderr_done && final(self).secret_sent {
                            r matches LaunchStep::Success { port } && port == p
                        } else {
                            r is Continue
                        },
                    }
                },
                SshEvent::ReadError(e) => *final(self) == *old(self) && (r matches LaunchStep::CommunicationError(m)
                    && m@ == "Error reading from "@ + stream_name(stream) + ": "@ + e@),
                SshEvent::StreamClosed => *final(self) == *old(self) && r is Continue,
                SshEvent::AllStreamsClosed => *final(self) == *old(self) && r is ExitedUnexpectedly,
            },
    {
        match event {
            SshEvent::Line(l) => {
                if is_not_present_message(l.as_str()) { LaunchStep::NotPresentOnRemote } else { LaunchStep::Continue }
            },
            SshEvent::HandshakeStarted(l) => {
                let prefix_len = HANDSHAKE_STARTED_MSG.unicode_len();
                let version = text_after(l.as_str(), prefix_len);
                if !text_equal(version.as_str(), VERSION) {
                    LaunchStep::HandshakeIncompatibleVersion { expected: String::from_str(VERSION), actual: version }
                } else if stream == SshStream::Stdout {
                    LaunchStep::SendSecret
                } else {
                    LaunchStep::Continue
                }
            },
            SshEvent::HandshakeCompleted(l) => {
                match stream {
                    SshStream::Stdout => self.stdout_done = true,
                    SshStream::Stderr => self.stderr_done = true,
                }
                let prefix_len = HANDSHAKE_COMPLETED_MSG.unicode_len();
                let rest = text_after(l.as_str(), prefix_len);
                match parse_port(rest.as_str()) {
                    None => {
                        proof { reveal_with_fuel(concat_all, 4); }
                        LaunchStep::CommunicationError(concat(&["Failed to parse port number from line '", l.as_str(), "'"]))
                    },
                    Some(p) => if self.stdout_done && self.stderr_done && self.secret_sent {
                        LaunchStep::Success { port: p }
                    } else {
                        LaunchStep::Continue
                    },
                }
            },
            SshEvent::ReadError(e) => {
                let name = match stream {
                    SshStream::Stdout => "stdout",
                    SshStream::Stderr => "stderr",
                };
                proof { reveal_with_fuel(concat_all, 5); }
                LaunchStep::CommunicationError(concat(&["Error reading from ", name, ": ", e.as_str()]))
            },
            SshEvent::StreamClosed => LaunchStep::Continue,
            SshEvent::AllStreamsClosed => LaunchStep::ExitedUnexpectedly,
        }
    }
}

/// Whether two texts are equal.
pub fn text_equal(a: &str, b: &str) -> (r: bool)
    ensures
        r == (a@ == b@),
{
    let ac = chars_of(a);
    let bc = chars_of(b);
    if ac.len() != bc.len() {
        return false;
    }
    let mut i: usize = 0;
    while i < ac.len()
        invariant
            ac@ == a@,
            bc@ == b@,
            ac@.len() == bc@.len(),
            i <= ac@.len(),
            forall|j: int| 0 <= j < i ==> a@[j] == b@[j],
        decreases ac.len() - i,
    {
        if ac[i] != bc[i] {
            return false;
        }
        i = i + 1;
    }
    assert(a@ =~= b@);
    true
}

/// How an attempt to launch a doer over ssh ended.
pub enum LaunchOutcome {
    /// ssh itself couldn't be run.
    FailedToRunSsh,
    NotPresentOnRemote,
    ExitedUnexpectedly,
    CommunicationError,
    HandshakeIncompatibleVersion { expected: String, actual: String },
    Success,
}

/// Why rjrssync should be deployed to the remote before launching again, if it should: when it is
/// missing or another version (or deploying is forced). Other failures are not helped by deploying.
pub fn deploy_reason(outcome: &LaunchOutcome, force: bool) -> (r: Option<String>)
    ensures
        force ==> (r matches Some(m) && m@ == "--deploy=force was set"@),
        !force ==> match *outcome {
            LaunchOutcome::NotPresentOnRemote => r matches Some(m) && m@ == "rjrssync is not present on the remote target"@,
            LaunchOutcome::HandshakeIncompatibleVersion { expected, actual } => r matches Some(m) && m@ ==
                "the rjrssync version present on the remote target ("@ + actual@ + ") is not compatible with this version ("@
                    + expected@ + ")"@,
            _ => r is None,
        },
{
    if force {
        return Some(String::from_str("--deploy=force was set"));
    }
    match outcome {
        LaunchOutcome::NotPresentOnRemote => Some(String::from_str("rjrssync is not present on the remote target")),
        LaunchOutcome::HandshakeIncompatibleVersion { expected, actual } => {
            proof { reveal_with_fuel(concat_all, 6); }
            Some(concat(&["the rjrssync version present on the remote target (", actual.as_str(),
                ") is not compatible with this version (", expected.as_str(), ")"]))
        },
        _ => None,
    }
}

} // verus!
