//! The arguments of a named-pipe request and the command line that carries them.
use vstd::prelude::*;

verus! {

/// The text views of a list of strings.
pub open spec fn views(v: Seq<String>) -> Seq<Seq<char>> {
    v.map_values(|s: String| s@)
}

/// The text views of a list of string pairs.
pub open spec fn pair_views(v: Seq<(String, String)>) -> Seq<(Seq<char>, Seq<char>)> {
    v.map_values(|p: (String, String)| (p.0@, p.1@))
}

/// The items joined with `sep` between each two neighbours.
pub open spec fn join_spec(items: Seq<Seq<char>>, sep: Seq<char>) -> Seq<char>
    decreases items.len(),
{
    if items.len() == 0 {
        Seq::empty()
    } else if items.len() == 1 {
        items[0]
    } else {
        join_spec(items.drop_last(), sep) + sep + items.last()
    }
}

/// The items joined with `sep` between each two neighbours.
pub fn join(items: &Vec<String>, sep: &str) -> (r: String)
    ensures
        r@ == join_spec(views(items@), sep@),
{
    let mut r = String::new();
    let ghost all = views(items@);
    let mut i: usize = 0;
    assert(all.take(0) =~= Seq::<Seq<char>>::empty());
    while i < items.len()
        invariant
            all == views(items@),
            all.len() == items@.len(),
            0 <= i <= items@.len(),
            r@ == join_spec(all.take(i as int), sep@),
        decreases items@.len() - i,
    {
        if i != 0 {
            r.append(sep);
        }
        r.append(items[i].as_str());
        assert(all.take(i + 1).drop_last() =~= all.take(i as int));
        i = i + 1;
    }
    assert(all.take(i as int) =~= all);
    r
}

/// The lowercase hexadecimal digit of `n`, for `0 <= n < 16`.
pub open spec fn hex_digit(n: int) -> char {
    seq!['0', '1', '2', '3', '4', '5', '6', '7', '8', '9', 'a', 'b', 'c', 'd', 'e', 'f'][n]
}

/// How one character appears inside a JSON string: `"` and `\` behind a
/// backslash, backspace, tab, line feed, form feed and carriage return as
/// `\b \t \n \f \r`, every other control character below U+0020 as `\u00xx` with
/// lowercase hex digits, and every other character as itself.
pub open spec fn json_escape_char(c: char) -> Seq<char> {
    if c == '"' {
        seq!['\\', '"']
    } else if c == '\\' {
        seq!['\\', '\\']
    } else if c == '\u{8}' {
        seq!['\\', 'b']
    } else if c == '\t' {
        seq!['\\', 't']
    } else if c == '\n' {
        seq!['\\', 'n']
    } else if c == '\u{c}' {
        seq!['\\', 'f']
    } else if c == '\r' {
        seq!['\\', 'r']
    } else if (c as u32) < 0x20 {
        seq!['\\', 'u', '0', '0', hex_digit((c as int) / 16), hex_digit((c as int) % 16)]
    } else {
        seq![c]
    }
}

/// The characters of a text, each as it appears inside a JSON string.
pub open spec fn json_escaped(s: Seq<char>) -> Seq<char>
    decreases s.len(),
{
    if s.len() == 0 {
        Seq::empty()
    } else {
        json_escaped(s.drop_last()) + json_escape_char(s.last())
    }
}

/// A text as a JSON string: between double quotes, escaped.
pub open spec fn json_string(s: Seq<char>) -> Seq<char> {
    seq!['"'] + json_escaped(s) + seq!['"']
}

/// The text that `serde_json` writes for a list of strings: `[`, the strings as
/// JSON strings separated by `,` (no spaces), then `]`.
pub open spec fn json_string_array(items: Seq<Seq<char>>) -> Seq<char> {
    seq!['['] + join_spec(items.map_values(|t: Seq<char>| json_string(t)), seq![',']) + seq![']']
}

/// `serde_json::Error`, declared so that the result of `serde_json::to_string` can
/// be carried; nothing inside it is read.
#[verifier::external_type_specification]
#[verifier::external_body]
pub struct ExJsonError(serde_json::Error);

/// Calls `serde_json::to_string` on a list of strings. Its documentation says that
/// serialising fails only where a `Serialize` impl decides to fail or a map has
/// non-string keys; neither happens for a list of strings, so the result is `Ok`.
/// Its text is `json_string_array` of the strings: the compact array form and the
/// string escapes that `serde_json`'s serializer writes (its `ESCAPE` table and
/// `write_char_escape` in `ser.rs`).
#[verifier::external_body]
fn json_of_strings(items: &Vec<String>) -> (r: Result<String, serde_json::Error>)
    ensures
        r is Ok,
        r matches Ok(s) ==> s@ == json_string_array(views(items@)),
{
    serde_json::to_string(items)
}

/// The text that a request sends for the given commands.
///
/// Commands are joined with single spaces, unless `json` is `Some(true)`: then they
/// are sent as a JSON array, and without commands as an empty JSON object `{}`.
/// With neither commands nor `json == Some(true)` the text is empty.
pub open spec fn command_text(commands: Option<Seq<Seq<char>>>, json: Option<bool>) -> Seq<char> {
    match (commands, json) {
        (Some(n), Some(true)) => json_string_array(n),
        (Some(n), _) => join_spec(n, seq![' ']),
        (None, Some(true)) => seq!['{', '}'],
        (None, _) => Seq::empty(),
    }
}

/// Asking for JSON with `Some(false)` sends the same text as not asking at all.
pub proof fn law_json_false_is_default(commands: Option<Seq<Seq<char>>>)
    ensures
        command_text(commands, Some(false)) == command_text(commands, None),
{
}

/// The address of the named pipe `name` on the local machine: `\\.\pipe\` then the name.
pub open spec fn pipe_address(name: Seq<char>) -> Seq<char> {
    seq!['\\', '\\', '.', '\\', 'p', 'i', 'p', 'e', '\\'] + name
}

/// The address of the named pipe `name` on the local machine.
pub fn pipe_address_of(name: &str) -> (r: String)
    ensures
        r@ == pipe_address(name@),
{
    let mut r = String::new();
    r.append("\\\\.\\pipe\\");
    proof {
        reveal_strlit("\\\\.\\pipe\\");
        assert("\\\\.\\pipe\\"@ =~= seq!['\\', '\\', '.', '\\', 'p', 'i', 'p', 'e', '\\']);
    }
    r.append(name);
    r
}

/// The arguments of a request sent through a named pipe.
#[derive(Debug)]
pub struct PipeArgs {
    /// The pipe's name, without the `\\.\pipe\` prefix.
    pub addr: String,
    /// The command words to send.
    pub commands: Option<Vec<String>>,
    /// How long to keep trying to connect, in milliseconds; forever when `None`.
    pub connect_timeout: Option<u32>,
    /// Read timeout in milliseconds; none when `None`.
    pub read_timeout: Option<u32>,
    /// Write timeout in milliseconds; none when `None`.
    pub write_timeout: Option<u32>,
    /// Whether to send the commands as JSON.
    pub json: Option<bool>,
}

impl PipeArgs {
    /// The command words as text.
    pub open spec fn commands_view(&self) -> Option<Seq<Seq<char>>> {
        match self.commands {
            Some(v) => Some(views(v@)),
            None => None,
        }
    }

    /// The text this request sends, before the line ending.
    pub fn get_command_string(&self) -> (r: String)
        ensures
            r@ == command_text(self.commands_view(), self.json),
    {
        match (&self.commands, self.json) {
            (Some(n), Some(true)) => match json_of_strings(n) {
                Ok(s) => s,
                Err(_) => String::new(),
            },
            (Some(n), _) => {
                proof {
                    reveal_strlit(" ");
                    assert(" "@ =~= seq![' ']);
                }
                join(n, " ")
            },
            (None, Some(true)) => {
                let mut r = String::new();
                r.append("{}");
                proof {
                    reveal_strlit("{}");
                    assert("{}"@ =~= seq!['{', '}']);
                }
                r
            },
            (None, _) => String::new(),
        }
    }

    /// The full address of the pipe.
    pub fn get_addr_string(&self) -> (r: String)
        ensures
            r@ == pipe_address(self.addr@),
    {
        pipe_address_of(self.addr.as_str())
    }
}

/// The subcommands of the command-line tool.
#[derive(Debug)]
pub enum Commands {
    /// Greets, after a wait that Ctrl-C can cut short.
    Hello { opt: String },
    /// Sends a request through a named pipe.
    PIPE(PipeArgs),
    /// Lists the named pipes whose names match a wildcard pattern.
    Search { pipename: String },
}

/// The parsed command line of the tool.
#[derive(Debug)]
pub struct Cli {
    pub command: Commands,
}

// ---------------------------------------------------------------------------
// Command lines built from the values a host language hands over.
// ---------------------------------------------------------------------------

/// `--` then the name.
pub open spec fn flag(name: Seq<char>) -> Seq<char> {
    seq!['-', '-'] + name
}

/// Each keyword argument as a flag followed by its value.
pub open spec fn keyword_words(kw: Seq<(Seq<char>, Seq<char>)>) -> Seq<Seq<char>>
    decreases kw.len(),
{
    if kw.len() == 0 {
        Seq::empty()
    } else {
        keyword_words(kw.drop_last()) + seq![flag(kw.last().0), kw.last().1]
    }
}

/// A command line: the program name, the positional words, then each keyword
/// argument as `--name value`.
pub open spec fn argv_spec(
    program: Seq<char>,
    positional: Seq<Seq<char>>,
    keyword: Seq<(Seq<char>, Seq<char>)>,
) -> Seq<Seq<char>> {
    seq![program] + positional + keyword_words(keyword)
}

/// `--` then the name, as a new string.
fn flag_of(name: &str) -> (r: String)
    ensures
        r@ == flag(name@),
{
    let mut r = String::new();
    r.append("--");
    proof {
        reveal_strlit("--");
        assert("--"@ =~= seq!['-', '-']);
    }
    r.append(name);
    r
}

/// Appends the keyword arguments to `out`, each as `--name value`.
fn push_keywords(out: &mut Vec<String>, keyword: &Vec<(String, String)>)
    ensures
        views(final(out)@) == views(old(out)@) + keyword_words(pair_views(keyword@)),
{
    let ghost start = views(out@);
    let ghost kw = pair_views(keyword@);
    let mut i: usize = 0;
    assert(kw.take(0) =~= Seq::<(Seq<char>, Seq<char>)>::empty());
    assert(views(out@) =~= start + keyword_words(kw.take(0)));
    while i < keyword.len()
        invariant
            kw == pair_views(keyword@),
            kw.len() == keyword@.len(),
            0 <= i <= keyword@.len(),
            views(out@) == start + keyword_words(kw.take(i as int)),
        decreases keyword@.len() - i,
    {
        let ghost before = out@;
        out.push(flag_of(keyword[i].0.as_str()));
        out.push(keyword[i].1.clone());
        assert(kw.take(i + 1).drop_last() =~= kw.take(i as int));
        assert(views(out@) =~= views(before) + seq![flag(kw[i as int].0), kw[i as int].1]);
        i = i + 1;
    }
    assert(kw.take(i as int) =~= kw);
}

/// The command line `[program, positional.., --name value ..]`.
pub fn argv_from_values(
    program: &str,
    positional: &Vec<String>,
    keyword: &Vec<(String, String)>,
) -> (r: Vec<String>)
    ensures
        views(r@) == argv_spec(program@, views(positional@), pair_views(keyword@)),
{
    let mut out: Vec<String> = Vec::new();
    let mut p = String::new();
    p.append(program);
    out.push(p);
    let mut i: usize = 0;
    while i < positional.len()
        invariant
            0 <= i <= positional@.len(),
            views(out@) == seq![program@] + views(positional@).take(i as int),
        decreases positional@.len() - i,
    {
        let ghost before = out@;
        let c = positional[i].clone();
        assert(c@ == positional@[i as int]@);
        out.push(c);
        assert(out@ == before.push(c));
        assert(views(out@) =~= views(before).push(c@));
        assert(views(positional@).take(i + 1) =~= views(positional@).take(i as int).push(c@));
        assert(views(out@) =~= seq![program@] + views(positional@).take(i + 1));
        i = i + 1;
    }
    assert(views(positional@).take(i as int) =~= views(positional@));
    push_keywords(&mut out, keyword);
    out
}

/// The text that `str::to_lowercase` makes of some text.
pub uninterp spec fn lowercase(s: Seq<char>) -> Seq<char>;

/// Calls `str::to_lowercase`: the Unicode lowercase of the text (character by
/// character, except that a capital sigma depends on its neighbours). The mapping
/// itself is only named, by `lowercase`.
#[verifier::external_body]
fn lowercase_of(s: &str) -> (r: String)
    ensures
        r@ == lowercase(s@),
{
    s.to_lowercase()
}

/// The keyword pairs with every value lowercased.
pub open spec fn lowercase_values(kw: Seq<(Seq<char>, Seq<char>)>) -> Seq<(Seq<char>, Seq<char>)> {
    kw.map_values(|p: (Seq<char>, Seq<char>)| (p.0, lowercase(p.1)))
}

/// The command line built from the arguments of a Python call: the program name,
/// the positional values, then `--name value` for each keyword argument with the
/// value lowercased (so that Python's `True` reads as `true`).
pub fn argv_from_py(
    program: &str,
    positional: &Vec<String>,
    keyword: &Vec<(String, String)>,
) -> (r: Vec<String>)
    ensures
        views(r@) == argv_spec(
            program@,
            views(positional@),
            lowercase_values(pair_views(keyword@)),
        ),
{
    let mut lowered: Vec<(String, String)> = Vec::new();
    let mut i: usize = 0;
    while i < keyword.len()
        invariant
            0 <= i <= keyword@.len(),
            pair_views(lowered@) == lowercase_values(pair_views(keyword@)).take(i as int),
        decreases keyword@.len() - i,
    {
        let ghost before = lowered@;
        let name = keyword[i].0.clone();
        let value = lowercase_of(keyword[i].1.as_str());
        assert(name@ == keyword@[i as int].0@);
        lowered.push((name, value));
        assert(lowered@ == before.push((name, value)));
        assert(pair_views(lowered@) =~= pair_views(before).push((name@, value@)));
        assert(lowercase_values(pair_views(keyword@))[i as int] == (name@, value@));
        assert(pair_views(lowered@) =~= lowercase_values(pair_views(keyword@)).take(i + 1));
        i = i + 1;
    }
    assert(lowercase_values(pair_views(keyword@)).take(i as int) =~= lowercase_values(
        pair_views(keyword@),
    ));
    argv_from_values(program, positional, &lowered)
}

/// What a JSON value offers when it is turned into command-line words: the JSON
/// text of each element of an array, or the key and the JSON text of the value of
/// each entry of an object.
#[derive(Debug)]
pub enum JsonInput {
    Array(Vec<String>),
    Object(Vec<(String, String)>),
    Scalar,
}

/// Why a command line could not be built from JSON values.
#[derive(Debug, Clone, Copy, PartialEq, Eq, Structural)]
pub enum ArgsError {
    /// The positional arguments are not a JSON array.
    NotArray,
    /// The keyword arguments are not a JSON object.
    NotObject,
}

/// The command line that a JSON array of positional arguments and a JSON object of
/// keyword arguments stand for, with `Cli` as the program name.
pub fn argv_from_json(args: &JsonInput, kwargs: &JsonInput) -> (r: Result<Vec<String>, ArgsError>)
    ensures
        match (args, kwargs) {
            (JsonInput::Array(a), JsonInput::Object(o)) => r matches Ok(v) && views(v@)
                == argv_spec("Cli"@, views(a@), pair_views(o@)),
            (JsonInput::Array(_), _) => r == Err::<Vec<String>, ArgsError>(ArgsError::NotObject),
            _ => r == Err::<Vec<String>, ArgsError>(ArgsError::NotArray),
        },
{
    match args {
        JsonInput::Array(a) => match kwargs {
            JsonInput::Object(o) => Ok(argv_from_values("Cli", a, o)),
            _ => Err(ArgsError::NotObject),
        },
        _ => Err(ArgsError::NotArray),
    }
}

/// Keyword pairs whose name is empty or `NA` contribute only their value; the
/// others contribute `--name value`.
pub open spec fn r_words(pairs: Seq<(Seq<char>, Seq<char>)>) -> Seq<Seq<char>>
    decreases pairs.len(),
{
    if pairs.len() == 0 {
        Seq::empty()
    } else {
        let (name, value) = pairs.last();
        r_words(pairs.drop_last()) + if name.len() == 0 || name == seq!['N', 'A'] {
            seq![value]
        } else {
            seq![flag(name), value]
        }
    }
}

/// Whether a name is empty or `NA`.
fn is_unnamed(name: &str) -> (r: bool)
    ensures
        r == (name@.len() == 0 || name@ == seq!['N', 'A']),
{
    let n = name.unicode_len();
    if n == 0 {
        true
    } else if n == 2 {
        let a = name.get_char(0);
        let b = name.get_char(1);
        let r = a == 'N' && b == 'A';
        assert(r ==> name@ =~= seq!['N', 'A']);
        r
    } else {
        false
    }
}

/// The command line `[program, ..]` built from a list of named values, as a host
/// language with optionally named arguments hands them over.
pub fn argv_from_named(program: &str, pairs: &Vec<(String, String)>) -> (r: Vec<String>)
    ensures
        views(r@) == seq![program@] + r_words(pair_views(pairs@)),
{
    let mut out: Vec<String> = Vec::new();
    let mut p = String::new();
    p.append(program);
    out.push(p);
    let ghost kw = pair_views(pairs@);
    let mut i: usize = 0;
    assert(kw.take(0) =~= Seq::<(Seq<char>, Seq<char>)>::empty());
    while i < pairs.len()
        invariant
            kw == pair_views(pairs@),
            kw.len() == pairs@.len(),
            0 <= i <= pairs@.len(),
            views(out@) == seq![program@] + r_words(kw.take(i as int)),
        decreases pairs@.len() - i,
    {
        let ghost before = out@;
        assert(kw.take(i + 1).drop_last() =~= kw.take(i as int));
        let unnamed = is_unnamed(pairs[i].0.as_str());
        if !unnamed {
            let f = flag_of(pairs[i].0.as_str());
            out.push(f);
        }
        let ghost mid = out@;
        let v = pairs[i].1.clone();
        out.push(v);
        proof {
            let (name, value) = kw[i as int];
            assert(kw.take(i + 1).last() == kw[i as int]);
            assert(value == v@);
            if unnamed {
                assert(views(out@) =~= views(before) + seq![value]);
            } else {
                assert(views(mid) =~= views(before) + seq![flag(name)]);
                assert(views(out@) =~= views(before) + seq![flag(name), value]);
            }
        }
        assert(views(out@) =~= seq![program@] + r_words(kw.take(i + 1)));
        i = i + 1;
    }
    assert(kw.take(i as int) =~= kw);
    out
}

} // verus!
