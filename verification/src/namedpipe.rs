//! The decisions of a named-pipe client: what a request sends, how long to keep
//! trying to connect, when a reply is complete, and which pipe names a search
//! reports. Opening, writing and reading the pipe are left to the caller.
use vstd::prelude::*;
use vstd::utf8::{valid_utf8, decode_utf8, encode_utf8, encode_utf8_decode_utf8};

use crate::pipe_args::{PipeArgs, pipe_address, pipe_address_of, command_text, views};

verus! {

// ---------------------------------------------------------------------------
// Errors.
// ---------------------------------------------------------------------------

/// Why sending through a named pipe failed.
#[derive(Debug)]
pub enum NamedPipeError {
    /// The pipe at this address could not be opened.
    NoConnection(String),
    /// A step of the exchange failed; the text names the step.
    CommunicationError(String),
    /// No connection could be made before the connect timeout ran out.
    Timeout,
}

/// The text of an error.
pub open spec fn error_text(e: NamedPipeError) -> Seq<char> {
    match e {
        NamedPipeError::NoConnection(a) => "NoConnection '"@ + a@ + "'"@,
        NamedPipeError::CommunicationError(s) => "NoConnectionErr "@ + s@,
        NamedPipeError::Timeout => "Timeout"@,
    }
}

impl NamedPipeError {
    /// The text of the error, as it is shown to the user.
    pub fn message(&self) -> (r: String)
        ensures
            r@ == error_text(*self),
    {
        let mut r = String::new();
        match self {
            NamedPipeError::NoConnection(a) => {
                r.append("NoConnection '");
                r.append(a.as_str());
                r.append("'");
            },
            NamedPipeError::CommunicationError(s) => {
                r.append("NoConnectionErr ");
                r.append(s.as_str());
            },
            NamedPipeError::Timeout => {
                r.append("Timeout");
            },
        }
        r
    }
}

// ---------------------------------------------------------------------------
// Requests.
// ---------------------------------------------------------------------------

/// The line ending that closes every request.
pub open spec fn crlf() -> Seq<char> {
    seq!['\r', '\n']
}

/// What a client sends: the pipe's full address and the text to write to it.
#[derive(Debug)]
pub struct PipeRequest {
    pub address: String,
    pub message: String,
}

impl PipeRequest {
    /// The bytes written to the pipe: the message in UTF-8.
    pub fn payload(&self) -> (r: Vec<u8>)
        ensures
            r@ == encode_utf8(self.message@),
    {
        self.message.as_str().as_bytes_vec()
    }
}

/// `text` followed by `\r\n`.
fn line_of(text: &str) -> (r: String)
    ensures
        r@ == text@ + crlf(),
{
    let mut r = String::new();
    r.append(text);
    r.append("\r\n");
    proof {
        reveal_strlit("\r\n");
        assert("\r\n"@ =~= crlf());
    }
    r
}

/// The request that sends `value` to the pipe named `path`: the address
/// `\\.\pipe\path` and the line `value\r\n`.
pub fn namedpipe(path: &str, value: &str) -> (r: PipeRequest)
    ensures
        r.address@ == pipe_address(path@),
        r.message@ == value@ + crlf(),
{
    PipeRequest { address: pipe_address_of(path), message: line_of(value) }
}

impl PipeArgs {
    /// The request these arguments describe: the pipe's address and the command
    /// text followed by `\r\n`.
    pub fn request(&self) -> (r: PipeRequest)
        ensures
            r.address@ == pipe_address(self.addr@),
            r.message@ == command_text(self.commands_view(), self.json) + crlf(),
    {
        let com = self.get_command_string();
        PipeRequest { address: self.get_addr_string(), message: line_of(com.as_str()) }
    }
}

// ---------------------------------------------------------------------------
// Connecting.
// ---------------------------------------------------------------------------

/// Whether a client that has been trying for `elapsed_nanos` nanoseconds keeps
/// trying to connect: always without a timeout, otherwise while the timeout (in
/// milliseconds) is longer than the time spent.
pub open spec fn keeps_connecting(connect_timeout: Option<u32>, elapsed_nanos: int) -> bool {
    match connect_timeout {
        None => true,
        Some(ms) => ms * 1_000_000 > elapsed_nanos,
    }
}

/// Whether to make another attempt to connect, after `elapsed_nanos` nanoseconds.
pub fn keep_connecting(connect_timeout: Option<u32>, elapsed_nanos: u128) -> (r: bool)
    ensures
        r == keeps_connecting(connect_timeout, elapsed_nanos as int),
        connect_timeout is None ==> r,
        connect_timeout matches Some(ms) ==> (r <==> (elapsed_nanos as int) < (ms as int)
            * 1_000_000),
{
    match connect_timeout {
        None => true,
        Some(ms) => (ms as u128) * 1_000_000u128 > elapsed_nanos,
    }
}

/// With a timeout of `ms` milliseconds a client keeps trying for exactly the first
/// `ms * 1_000_000` nanoseconds, counted without any bound on the width of the
/// number; a longer timeout never gives up earlier than a shorter one.
pub proof fn law_connect_timeout_is_exact(ms: u32, ms2: u32, t: int)
    ensures
        keeps_connecting(Some(ms), t) <==> t < ms as int * 1_000_000,
        ms <= ms2 && keeps_connecting(Some(ms), t) ==> keeps_connecting(Some(ms2), t),
        0 <= t < ms as int * 1_000_000 ==> keeps_connecting(Some(ms), t),
{
    if ms <= ms2 {
        assert(ms as int * 1_000_000 <= ms2 as int * 1_000_000);
    }
}

/// Once a client has stopped trying to connect it would not have started again
/// later, and without a timeout it never stops.
pub proof fn law_connect_deadline_is_final(connect_timeout: Option<u32>, t1: int, t2: int)
    requires
        t1 <= t2,
    ensures
        keeps_connecting(connect_timeout, t2) ==> keeps_connecting(connect_timeout, t1),
        connect_timeout is None ==> keeps_connecting(connect_timeout, t2),
{
}

// ---------------------------------------------------------------------------
// Replies.
// ---------------------------------------------------------------------------

/// The text that `String::from_utf8_lossy` makes of some bytes.
pub uninterp spec fn utf8_lossy(bytes: Seq<u8>) -> Seq<char>;

/// Calls `String::from_utf8_lossy`. Its documentation says that valid UTF-8 is
/// decoded as it stands and that each invalid sequence becomes U+FFFD; the contract
/// states the first half. What replaces invalid input is left unstated and only
/// named by `utf8_lossy`.
#[verifier::external_body]
fn decode_lossy(bytes: &[u8]) -> (r: String)
    ensures
        r@ == utf8_lossy(bytes@),
        valid_utf8(bytes@) ==> r@ == decode_utf8(bytes@),
{
    String::from_utf8_lossy(bytes).into_owned()
}

/// The characters of a text, in order.
fn chars_of(s: &str) -> (r: Vec<char>)
    ensures
        r@ == s@,
{
    let mut r: Vec<char> = Vec::new();
    for c in it: s.chars()
        invariant
            it.seq() == s@,
            r@ == s@.take(it.index() as int),
    {
        r.push(c);
        assert(s@.take(it.index() + 1) =~= r@);
    }
    assert(r@ =~= s@);
    r
}

/// Calls `String::push`, which appends one character.
#[verifier::external_body]
fn push_char(s: &mut String, c: char)
    ensures
        final(s)@ == old(s)@.push(c),
{
    s.push(c)
}

/// The text of some characters, as a string.
fn string_of(cs: &Vec<char>) -> (r: String)
    ensures
        r@ == cs@,
{
    let mut r = String::new();
    let mut i: usize = 0;
    while i < cs.len()
        invariant
            0 <= i <= cs@.len(),
            r@ == cs@.take(i as int),
        decreases cs@.len() - i,
    {
        push_char(&mut r, cs[i]);
        assert(cs@.take(i + 1) =~= cs@.take(i as int).push(cs@[i as int]));
        i = i + 1;
    }
    assert(cs@.take(i as int) =~= cs@);
    r
}

/// The bytes of a request's payload are valid UTF-8 and decode to its message, so a
/// peer that reads them with [`Reply::absorb`] gets the message back unchanged.
pub proof fn law_payload_decodes_to_message(text: Seq<char>)
    ensures
        valid_utf8(encode_utf8(text)),
        decode_utf8(encode_utf8(text)) == text,
{
    encode_utf8_decode_utf8(text);
    vstd::utf8::encode_utf8_valid_utf8(text);
}

/// A reply being read: the text received so far.
pub struct Reply {
    received: Vec<char>,
}

impl View for Reply {
    type V = Seq<char>;

    closed spec fn view(&self) -> Seq<char> {
        self.received@
    }
}

impl Reply {
    /// A reply of which nothing has been received yet.
    pub fn new() -> (r: Reply)
        ensures
            r@ == Seq::<char>::empty(),
    {
        Reply { received: Vec::new() }
    }

    /// Adds a chunk of received bytes, decoded as UTF-8 with invalid sequences
    /// replaced.
    pub fn absorb(&mut self, chunk: &[u8])
        ensures
            final(self)@ == old(self)@ + utf8_lossy(chunk@),
            valid_utf8(chunk@) ==> final(self)@ == old(self)@ + decode_utf8(chunk@),
    {
        let text = decode_lossy(chunk);
        let mut cs = chars_of(text.as_str());
        self.received.append(&mut cs);
    }

    /// Whether the reply is complete: it holds a line feed.
    pub fn is_complete(&self) -> (r: bool)
        ensures
            r == self@.contains('\n'),
    {
        let mut i: usize = 0;
        while i < self.received.len()
            invariant
                0 <= i <= self.received@.len(),
                forall|j: int| 0 <= j < i ==> self.received@[j] != '\n',
            decreases self.received@.len() - i,
        {
            if self.received[i] == '\n' {
                return true;
            }
            i = i + 1;
        }
        false
    }

    /// One round of reading: adds what a read returned, if it succeeded (a failed
    /// read adds nothing), and says whether the reply is now complete.
    pub fn on_read(&mut self, chunk: Option<&[u8]>) -> (done: bool)
        ensures
            match chunk {
                Some(c) => final(self)@ == old(self)@ + utf8_lossy(c@),
                None => final(self)@ == old(self)@,
            },
            done == final(self)@.contains('\n'),
    {
        match chunk {
            Some(c) => self.absorb(c),
            None => {},
        }
        self.is_complete()
    }

    /// The text received so far.
    pub fn text(&self) -> (r: String)
        ensures
            r@ == self@,
    {
        string_of(&self.received)
    }

    /// The text received so far with its line endings removed, its lines joined.
    pub fn joined_lines(&self) -> (r: String)
        ensures
            r@ == lines_joined(self@),
    {
        join_lines_of(&self.received)
    }
}

/// The lines of `s` concatenated: every `\n`, and every `\r` directly before a
/// `\n`, removed. A `\r` that no `\n` follows stays.
pub open spec fn lines_joined(s: Seq<char>) -> Seq<char>
    decreases s.len(),
{
    if s.len() == 0 {
        Seq::empty()
    } else if s[0] == '\n' {
        lines_joined(s.drop_first())
    } else if s[0] == '\r' && s.len() >= 2 && s[1] == '\n' {
        lines_joined(s.skip(2))
    } else {
        seq![s[0]] + lines_joined(s.drop_first())
    }
}

/// The lines of some characters, concatenated.
fn join_lines_of(cs: &Vec<char>) -> (r: String)
    ensures
        r@ == lines_joined(cs@),
{
    let mut r = String::new();
    let n = cs.len();
    let mut i: usize = 0;
    assert(cs@.skip(0) =~= cs@);
    while i < n
        invariant
            n == cs@.len(),
            0 <= i <= n,
            r@ + lines_joined(cs@.skip(i as int)) == lines_joined(cs@),
        decreases n - i,
    {
        let ghost rest = cs@.skip(i as int);
        assert(rest[0] == cs@[i as int]);
        assert(rest.drop_first() =~= cs@.skip(i + 1));
        let c = cs[i];
        if c == '\n' {
            i = i + 1;
        } else if c == '\r' && i + 1 < n && cs[i + 1] == '\n' {
            assert(rest[1] == cs@[i + 1]);
            assert(rest.skip(2) =~= cs@.skip(i + 2));
            i = i + 2;
        } else {
            let ghost before = r@;
            push_char(&mut r, c);
            assert(r@ + lines_joined(cs@.skip(i + 1)) =~= before + lines_joined(rest));
            i = i + 1;
        }
    }
    assert(cs@.skip(i as int) =~= Seq::<char>::empty());
    assert(r@ + Seq::<char>::empty() =~= r@);
    r
}

/// The concatenated lines of a text of lines, a shorthand for a caller that holds
/// the whole text.
pub fn collect_lines(text: &str) -> (r: String)
    ensures
        r@ == lines_joined(text@),
{
    let cs = chars_of(text);
    join_lines_of(&cs)
}

/// Joining lines leaves no line feed behind.
pub proof fn law_joined_lines_have_no_line_feed(s: Seq<char>)
    ensures
        !lines_joined(s).contains('\n'),
    decreases s.len(),
{
    if s.len() > 0 {
        if s[0] == '\n' {
            law_joined_lines_have_no_line_feed(s.drop_first());
        } else if s[0] == '\r' && s.len() >= 2 && s[1] == '\n' {
            law_joined_lines_have_no_line_feed(s.skip(2));
        } else {
            law_joined_lines_have_no_line_feed(s.drop_first());
            let t = lines_joined(s.drop_first());
            assert forall|k: int| 0 <= k < 1 + t.len() implies (seq![s[0]] + t)[k] != '\n' by {
                if k > 0 {
                    assert((seq![s[0]] + t)[k] == t[k - 1]);
                }
            }
        }
    }
}

/// Text without line feeds is its own single line.
pub proof fn law_single_line_is_kept(s: Seq<char>)
    requires
        !s.contains('\n'),
    ensures
        lines_joined(s) == s,
    decreases s.len(),
{
    if s.len() > 0 {
        assert(s[0] != '\n');
        let t = s.drop_first();
        assert(!t.contains('\n')) by {
            if t.contains('\n') {
                let k = choose|k: int| 0 <= k < t.len() && t[k] == '\n';
                assert(s[k + 1] == '\n');
            }
        }
        if s[0] == '\r' && s.len() >= 2 {
            assert(s[1] == t[0]);
        }
        law_single_line_is_kept(t);
        assert(seq![s[0]] + t =~= s);
    }
}

/// Joining the lines twice is the same as joining them once.
pub proof fn law_join_lines_idempotent(s: Seq<char>)
    ensures
        lines_joined(lines_joined(s)) == lines_joined(s),
{
    law_joined_lines_have_no_line_feed(s);
    law_single_line_is_kept(lines_joined(s));
}

// ---------------------------------------------------------------------------
// Searching pipes by name.
// ---------------------------------------------------------------------------

/// Whether `s` matches the wildcard pattern `p` as a whole: `?` matches any one
/// character, `*` any run of characters (the empty run too), any other character
/// itself. There is no escape character.
pub open spec fn wild_match(p: Seq<char>, s: Seq<char>) -> bool
    decreases p.len() + s.len(),
{
    if p.len() == 0 {
        s.len() == 0
    } else if p[0] == '*' {
        wild_match(p.drop_first(), s) || (s.len() > 0 && wild_match(p, s.drop_first()))
    } else {
        s.len() > 0 && (p[0] == '?' || p[0] == s[0]) && wild_match(p.drop_first(), s.drop_first())
    }
}

/// Builds `wildmatch::WildMatch::new(pattern)` and calls its `matches(name)`. The
/// crate's documentation: the pattern must match the whole input; `?` matches
/// exactly one occurrence of any character, `*` arbitrarily many (including zero);
/// no escape characters are defined; matching is case-sensitive.
#[verifier::external_body]
fn wildcard_matches(pattern: &str, name: &str) -> (r: bool)
    ensures
        r == wild_match(pattern@, name@),
{
    wildmatch::WildMatch::new(pattern).matches(name)
}

/// The names that match `p`, in their order.
pub open spec fn names_matching(p: Seq<char>, names: Seq<Seq<char>>) -> Seq<Seq<char>>
    decreases names.len(),
{
    if names.len() == 0 {
        Seq::empty()
    } else {
        names_matching(p, names.drop_last()) + if wild_match(p, names.last()) {
            seq![names.last()]
        } else {
            Seq::empty()
        }
    }
}

/// The names among `names` that match the wildcard pattern, in their order.
pub fn search(pattern: &str, names: &Vec<String>) -> (r: Vec<String>)
    ensures
        views(r@) == names_matching(pattern@, views(names@)),
{
    let mut out: Vec<String> = Vec::new();
    let ghost all = views(names@);
    let mut i: usize = 0;
    assert(all.take(0) =~= Seq::<Seq<char>>::empty());
    while i < names.len()
        invariant
            all == views(names@),
            all.len() == names@.len(),
            0 <= i <= names@.len(),
            views(out@) == names_matching(pattern@, all.take(i as int)),
        decreases names@.len() - i,
    {
        let ghost before = out@;
        assert(all.take(i + 1).drop_last() =~= all.take(i as int));
        assert(all.take(i + 1).last() == names@[i as int]@);
        if wildcard_matches(pattern, names[i].as_str()) {
            let c = names[i].clone();
            out.push(c);
            assert(views(out@) =~= views(before).push(c@));
        }
        assert(views(out@) =~= names_matching(pattern@, all.take(i + 1)));
        i = i + 1;
    }
    assert(all.take(i as int) =~= all);
    out
}

/// Searching a list in two parts reports the matches of the first part, then
/// those of the second: a search keeps the order of the names.
pub proof fn law_search_keeps_order(p: Seq<char>, a: Seq<Seq<char>>, b: Seq<Seq<char>>)
    ensures
        names_matching(p, a + b) == names_matching(p, a) + names_matching(p, b),
    decreases b.len(),
{
    if b.len() == 0 {
        assert(a + b =~= a);
        assert(names_matching(p, a) + names_matching(p, b) =~= names_matching(p, a));
    } else {
        law_search_keeps_order(p, a, b.drop_last());
        assert((a + b).drop_last() =~= a + b.drop_last());
        assert((a + b).last() == b.last());
        let tail = if wild_match(p, b.last()) {
            seq![b.last()]
        } else {
            Seq::<Seq<char>>::empty()
        };
        assert(names_matching(p, a) + names_matching(p, b) =~= names_matching(p, a)
            + names_matching(p, b.drop_last()) + tail);
    }
}

/// Every name a search reports matches the pattern.
pub proof fn law_search_reports_only_matches(p: Seq<char>, names: Seq<Seq<char>>, k: int)
    requires
        0 <= k < names_matching(p, names).len(),
    ensures
        wild_match(p, names_matching(p, names)[k]),
        names.contains(names_matching(p, names)[k]),
    decreases names.len(),
{
    let init = names_matching(p, names.drop_last());
    if k < init.len() {
        law_search_reports_only_matches(p, names.drop_last(), k);
        let x = init[k];
        let j = choose|j: int| 0 <= j < names.drop_last().len() && names.drop_last()[j] == x;
        assert(names[j] == x);
    } else {
        assert(names[names.len() - 1] == names.last());
    }
}

/// Every name that matches the pattern is reported.
pub proof fn law_search_reports_every_match(p: Seq<char>, names: Seq<Seq<char>>, j: int)
    requires
        0 <= j < names.len(),
        wild_match(p, names[j]),
    ensures
        names_matching(p, names).contains(names[j]),
    decreases names.len(),
{
    let init = names_matching(p, names.drop_last());
    if j < names.len() - 1 {
        law_search_reports_every_match(p, names.drop_last(), j);
        let k = choose|k: int| 0 <= k < init.len() && init[k] == names.drop_last()[j];
        assert(names_matching(p, names)[k] == init[k]);
    } else {
        assert(names_matching(p, names)[init.len() as int] == names[j]);
    }
}

/// The pattern `*` matches every name.
pub proof fn law_star_matches_everything(s: Seq<char>)
    ensures
        wild_match(seq!['*'], s),
    decreases s.len(),
{
    let p = seq!['*'];
    assert(p.len() == 1 && p[0] == '*');
    assert(p.drop_first() =~= Seq::<char>::empty());
    if s.len() > 0 {
        law_star_matches_everything(s.drop_first());
    } else {
        assert(wild_match(p.drop_first(), s));
    }
}

/// A pattern without wildcards matches exactly itself.
pub proof fn law_plain_pattern_matches_itself_only(p: Seq<char>, s: Seq<char>)
    requires
        !p.contains('*'),
        !p.contains('?'),
    ensures
        wild_match(p, s) <==> s == p,
    decreases p.len(),
{
    if p.len() == 0 {
        if s.len() == 0 {
            assert(s =~= p);
        }
    } else {
        assert(p[0] != '*' && p[0] != '?');
        let t = p.drop_first();
        assert(!t.contains('*')) by {
            if t.contains('*') {
                let k = choose|k: int| 0 <= k < t.len() && t[k] == '*';
                assert(p[k + 1] == '*');
            }
        }
        assert(!t.contains('?')) by {
            if t.contains('?') {
                let k = choose|k: int| 0 <= k < t.len() && t[k] == '?';
                assert(p[k + 1] == '?');
            }
        }
        if s.len() > 0 {
            law_plain_pattern_matches_itself_only(t, s.drop_first());
            if s == p {
                assert(s.drop_first() =~= t);
            }
            if s.drop_first() == t && p[0] == s[0] {
                assert forall|k: int| 0 <= k < s.len() implies s[k] == p[k] by {
                    if k > 0 {
                        assert(s[k] == s.drop_first()[k - 1]);
                        assert(p[k] == t[k - 1]);
                    }
                }
                assert(s =~= p);
            }
        }
    }
}

// ---------------------------------------------------------------------------
// Outcome.
// ---------------------------------------------------------------------------

/// The word a request reports: `OK` when the exchange succeeded, `ERR` otherwise.
pub open spec fn status_text(succeeded: bool) -> Seq<char> {
    if succeeded {
        "OK"@
    } else {
        "ERR"@
    }
}

/// The word a request reports for the outcome of its exchange.
pub fn status_word<T, E>(r: &Result<T, E>) -> (s: &'static str)
    ensures
        s@ == status_text(r is Ok),
{
    match r {
        Ok(_) => "OK",
        Err(_) => "ERR",
    }
}

/// The report is one of two words, and it is `OK` exactly when the exchange
/// succeeded.
pub proof fn law_status_reports_success(succeeded: bool)
    ensures
        status_text(succeeded) == "OK"@ || status_text(succeeded) == "ERR"@,
        (status_text(succeeded) == "OK"@) == succeeded,
{
    reveal_strlit("OK");
    reveal_strlit("ERR");
    assert("OK"@.len() != "ERR"@.len());
}

} // verus!
