//! Registering the MCP server with the clients on this machine: the
//! copy-paste setup snippets, what a client's config says about whether we
//! are registered, and the status lines the settings page shows. Finding
//! the files and running the client CLIs is the caller's part; this module
//! decides what is written and what is reported.

use vstd::prelude::*;

use crate::json::json_quoted;
use crate::text::{
    views, char_end, chars_of, equals_range, lemma_line_end, line_end_exec, line_text, line_text_bounds, lines,
    lines_from, push_char, push_str, starts_with, starts_with_exec, string_of, trim, trim_bounds,
    trim_string,
};

verus! {

/// Where the MCP server binary lives plus ready-made client snippets for
/// the settings page.
pub struct McpSetupInfo {
    pub path: String,
    pub exists: bool,
    pub claude_code_command: String,
    pub config_json: String,
    pub codex_command: String,
    pub codex_toml: String,
    pub claude_desktop_config_path: String,
}

/// The clients the settings page can register with.
#[derive(Clone, Copy, PartialEq, Eq, Structural, Debug)]
pub enum McpClient {
    ClaudeDesktop,
    ClaudeCode,
    Codex,
}

/// One client's card: whether it is on this machine, whether it knows our
/// server, and the status line.
pub struct ClientStatus {
    pub installed: bool,
    pub registered: bool,
    /// The resolved CLI or config path, or why detection came up empty.
    pub detail: String,
}

/// Every client's card, plus the server path they would be pointed at.
pub struct McpClientsStatus {
    pub server_path: String,
    pub server_exists: bool,
    pub claude_desktop: ClientStatus,
    pub claude_code: ClientStatus,
    pub codex: ClientStatus,
}

/// A client's telemetry name, from a closed set.
pub open spec fn client_label_spec(client: McpClient) -> Seq<char> {
    match client {
        McpClient::ClaudeDesktop => "claude_desktop"@,
        McpClient::ClaudeCode => "claude_code"@,
        McpClient::Codex => "codex"@,
    }
}

/// The client's telemetry name.
pub fn client_label(client: McpClient) -> (r: &'static str)
    ensures
        r@ == client_label_spec(client),
{
    match client {
        McpClient::ClaudeDesktop => "claude_desktop",
        McpClient::ClaudeCode => "claude_code",
        McpClient::Codex => "codex",
    }
}

/// The first word of a label: everything before its first underscore.
pub open spec fn first_word(label: Seq<char>) -> Seq<char> {
    label.take(char_end(label, '_', 0))
}

/// The command-line tool a client is driven by: the first word of its
/// label.
pub open spec fn cli_name_spec(client: McpClient) -> Seq<char> {
    first_word(client_label_spec(client))
}

/// The ASCII uppercase form of a character.
pub open spec fn ascii_upper(c: char) -> char {
    if 'a' <= c && c <= 'z' {
        (((c as u8) - 32) as u8) as char
    } else {
        c
    }
}

/// The character at `i` of a label shown as a title: underscores become
/// spaces and each word starts with a capital.
pub open spec fn title_char(label: Seq<char>, i: int) -> char {
    if label[i] == '_' {
        ' '
    } else if i == 0 || label[i - 1] == '_' {
        ascii_upper(label[i])
    } else {
        label[i]
    }
}

/// A label shown as a title.
pub open spec fn titled(label: Seq<char>) -> Seq<char> {
    Seq::new(label.len(), |i: int| title_char(label, i))
}

/// The name a client is shown under: its label as a title.
pub open spec fn client_display_name_spec(client: McpClient) -> Seq<char> {
    titled(client_label_spec(client))
}

/// The command-line tool a client is driven by.
pub fn cli_name(client: McpClient) -> (r: String)
    ensures
        r@ == cli_name_spec(client),
{
    let v = chars_of(client_label(client));
    let mut i: usize = 0;
    while i < v.len() && v[i] != '_'
        invariant
            i <= v@.len(),
            char_end(v@, '_', 0) == char_end(v@, '_', i as int),
        decreases v.len() - i,
    {
        i = i + 1;
    }
    proof {
        if i < v@.len() {
            assert(char_end(v@, '_', i as int) == i);
        } else {
            assert(char_end(v@, '_', i as int) == v@.len());
        }
        assert(v@.subrange(0, i as int) =~= v@.take(i as int));
    }
    string_of(v.as_slice(), 0, i)
}

/// The name a client is shown under.
pub fn client_display_name(client: McpClient) -> (r: String)
    ensures
        r@ == client_display_name_spec(client),
{
    let v = chars_of(client_label(client));
    let mut out = String::new();
    let mut i: usize = 0;
    while i < v.len()
        invariant
            i <= v@.len(),
            out@ == titled(v@).take(i as int),
        decreases v.len() - i,
    {
        let c = v[i];
        let t = if c == '_' {
            ' '
        } else if i == 0 || v[i - 1] == '_' {
            if 'a' <= c && c <= 'z' {
                ((c as u8) - 32) as char
            } else {
                c
            }
        } else {
            c
        };
        push_char(&mut out, t);
        proof {
            assert(t == title_char(v@, i as int));
            assert(out@ =~= titled(v@).take(i + 1));
        }
        i = i + 1;
    }
    proof {
        assert(titled(v@).take(v@.len() as int) =~= titled(v@));
    }
    out
}

/// The Codex config table for a server path. TOML literal strings need no
/// backslash escaping, so a Windows path goes in as written.
pub open spec fn codex_toml_spec(server_path: Seq<char>) -> Seq<char> {
    "[mcp_servers.embral]\ncommand = '"@ + server_path + "'\nargs = []"@
}

/// The Codex config table for a server path.
pub fn codex_toml_snippet(server_path: &str) -> (r: String)
    ensures
        r@ == codex_toml_spec(server_path@),
{
    let mut out = String::new();
    push_str(&mut out, "[mcp_servers.embral]\ncommand = '");
    push_str(&mut out, server_path);
    push_str(&mut out, "'\nargs = []");
    proof {
        assert(out@ =~= codex_toml_spec(server_path@));
    }
    out
}

/// The prefix Windows puts on a canonical path (`\\?\`), which confuses a
/// path copied into another program's config.
pub open spec fn verbatim_prefix() -> Seq<char> {
    seq!['\\', '\\', '?', '\\']
}

/// A canonical path as it is shown and written: without the verbatim
/// prefix.
pub open spec fn simplified(path: Seq<char>) -> Seq<char> {
    if starts_with(path, verbatim_prefix()) {
        path.skip(4)
    } else {
        path
    }
}

/// Drops the Windows verbatim prefix from a canonical path.
pub fn dunce_simplify(canonical: &str) -> (r: String)
    ensures
        r@ == simplified(canonical@),
{
    let v = chars_of(canonical);
    let mut p: Vec<char> = Vec::new();
    p.push('\\');
    p.push('\\');
    p.push('?');
    p.push('\\');
    proof {
        assert(p@ =~= verbatim_prefix());
    }
    if starts_with_exec(v.as_slice(), p.as_slice()) {
        string_of(v.as_slice(), 4, v.len())
    } else {
        proof {
            assert(v@.subrange(0, v@.len() as int) =~= v@);
        }
        string_of(v.as_slice(), 0, v.len())
    }
}

/// `s` with every backslash doubled, as a JSON string literal needs.
pub open spec fn escape_backslashes(s: Seq<char>) -> Seq<char>
    decreases s.len(),
{
    if s.len() == 0 {
        Seq::empty()
    } else {
        let head = escape_backslashes(s.drop_last());
        if s.last() == '\\' {
            head.push('\\').push('\\')
        } else {
            head.push(s.last())
        }
    }
}

/// Doubles every backslash in `s`.
pub fn escape_json_backslashes(s: &str) -> (r: String)
    ensures
        r@ == escape_backslashes(s@),
{
    let v = chars_of(s);
    let mut out = String::new();
    let mut i: usize = 0;
    while i < v.len()
        invariant
            i <= v@.len(),
            out@ == escape_backslashes(v@.take(i as int)),
        decreases v.len() - i,
    {
        let c = v[i];
        proof {
            assert(v@.take(i + 1).drop_last() =~= v@.take(i as int));
            assert(v@.take(i + 1).last() == c);
        }
        if c == '\\' {
            push_char(&mut out, '\\');
            push_char(&mut out, '\\');
        } else {
            push_char(&mut out, c);
        }
        i = i + 1;
    }
    proof {
        assert(v@.take(v@.len() as int) =~= v@);
    }
    out
}

/// The code client's command that registers a server path, in user
/// scope.
pub open spec fn claude_code_command_spec(path: Seq<char>) -> Seq<char> {
    cli_name_spec(McpClient::ClaudeCode) + " mcp add --scope user embral -- \""@ + path + "\""@
}

/// The Codex command that registers a server path.
pub open spec fn codex_command_spec(path: Seq<char>) -> Seq<char> {
    "codex mcp add embral -- \""@ + path + "\""@
}

/// The desktop client's config block that registers a server path.
pub open spec fn config_json_spec(path: Seq<char>) -> Seq<char> {
    "{\n  \"mcpServers\": {\n    \"embral\": {\n      \"command\": \""@ + escape_backslashes(path)
        + "\"\n    }\n  }\n}"@
}

/// The setup page's contents for a server at `display` (already
/// simplified), present or not, with the desktop client's config file at
/// `desktop_config_path` (empty when this system has no place for it).
pub fn mcp_setup_info(display: String, exists: bool, desktop_config_path: String) -> (r:
    McpSetupInfo)
    ensures
        r.path@ == display@,
        r.exists == exists,
        r.claude_code_command@ == claude_code_command_spec(display@),
        r.config_json@ == config_json_spec(display@),
        r.codex_command@ == codex_command_spec(display@),
        r.codex_toml@ == codex_toml_spec(display@),
        r.claude_desktop_config_path@ == desktop_config_path@,
{
    let escaped = escape_json_backslashes(display.as_str());
    let mut claude_code_command = cli_name(McpClient::ClaudeCode);
    push_str(&mut claude_code_command, " mcp add --scope user embral -- \"");
    push_str(&mut claude_code_command, display.as_str());
    push_str(&mut claude_code_command, "\"");
    let mut config_json = String::new();
    push_str(&mut config_json, "{\n  \"mcpServers\": {\n    \"embral\": {\n      \"command\": \"");
    push_str(&mut config_json, escaped.as_str());
    push_str(&mut config_json, "\"\n    }\n  }\n}");
    let mut codex_command = String::new();
    push_str(&mut codex_command, "codex mcp add embral -- \"");
    push_str(&mut codex_command, display.as_str());
    push_str(&mut codex_command, "\"");
    let codex_toml = codex_toml_snippet(display.as_str());
    proof {
        assert(claude_code_command@ =~= claude_code_command_spec(display@));
        assert(config_json@ =~= config_json_spec(display@));
        assert(codex_command@ =~= codex_command_spec(display@));
    }
    McpSetupInfo {
        path: display,
        exists,
        claude_code_command,
        config_json,
        codex_command,
        codex_toml,
        claude_desktop_config_path: desktop_config_path,
    }
}

/// How many characters of a failed command's output an error line keeps.
pub const OUTPUT_TAIL_CHARS: usize = 400;

/// The text a failed command is reported by: its trimmed error output, or
/// its trimmed standard output when that is empty, or its exit status.
pub open spec fn failure_text(stderr: Seq<char>, stdout: Seq<char>, status: Seq<char>) -> Seq<
    char,
> {
    if trim(stderr).len() > 0 {
        trim(stderr)
    } else if trim(stdout).len() > 0 {
        trim(stdout)
    } else {
        "exit status "@ + status
    }
}

/// The last `OUTPUT_TAIL_CHARS` characters of `t` (all of it when shorter).
pub open spec fn tail_of(t: Seq<char>) -> Seq<char> {
    if t.len() >= OUTPUT_TAIL_CHARS {
        t.skip(t.len() - OUTPUT_TAIL_CHARS)
    } else {
        t
    }
}

/// The last chunk of a failed command's output (`status` is how its exit
/// status displays): enough to see why, short enough for an inline error
/// line.
pub fn output_tail(stderr: &str, stdout: &str, status: &str) -> (r: String)
    ensures
        r@ == tail_of(failure_text(stderr@, stdout@, status@)),
{
    let mut text = trim_string(stderr);
    if text.as_str().unicode_len() == 0 {
        text = trim_string(stdout);
    }
    if text.as_str().unicode_len() == 0 {
        let mut t = String::new();
        push_str(&mut t, "exit status ");
        push_str(&mut t, status);
        text = t;
    }
    let ghost full = text@;
    assert(full == failure_text(stderr@, stdout@, status@));
    let v = chars_of(text.as_str());
    if v.len() >= OUTPUT_TAIL_CHARS {
        string_of(v.as_slice(), v.len() - OUTPUT_TAIL_CHARS, v.len())
    } else {
        proof {
            assert(v@.subrange(0, v@.len() as int) =~= v@);
        }
        string_of(v.as_slice(), 0, v.len())
    }
}

/// The header line of our table in the Codex config.
pub open spec fn codex_header() -> Seq<char> {
    "[mcp_servers.embral]"@
}

/// Whether some line of `ls`, trimmed, is our table's header.
pub open spec fn has_header_line(ls: Seq<Seq<char>>) -> bool {
    exists|i: int| 0 <= i < ls.len() && trim(#[trigger] ls[i]) == codex_header()
}

proof fn lemma_header_line_cons(ls: Seq<Seq<char>>)
    requires
        ls.len() > 0,
    ensures
        has_header_line(ls) == (trim(ls[0]) == codex_header() || has_header_line(ls.drop_first())),
{
    if has_header_line(ls) && trim(ls[0]) != codex_header() {
        let i = choose|i: int| 0 <= i < ls.len() && trim(#[trigger] ls[i]) == codex_header();
        assert(ls.drop_first()[i - 1] == ls[i]);
    }
    if has_header_line(ls.drop_first()) {
        let i = choose|i: int|
            0 <= i < ls.drop_first().len() && trim(#[trigger] ls.drop_first()[i]) == codex_header();
        assert(ls[i + 1] == ls.drop_first()[i]);
    }
}

/// Whether the Codex config (its text, when the file could be read) has
/// our table.
pub fn codex_registered(config_text: Option<&str>) -> (r: bool)
    ensures
        r == (config_text matches Some(t) && has_header_line(lines(t@))),
{
    let text = match config_text {
        Some(t) => t,
        None => return false,
    };
    let v = chars_of(text);
    let h = chars_of("[mcp_servers.embral]");
    let ghost b = v@;
    let mut start: usize = 0;
    proof {
        assert(b.subrange(0, b.len() as int) =~= b);
    }
    while start < v.len()
        invariant
            b == v@,
            b == text@,
            config_text == Some(text),
            h@ == codex_header(),
            start <= b.len(),
            has_header_line(lines(b)) == has_header_line(lines_from(b, start as int)),
        decreases b.len() - start,
    {
        let e = line_end_exec(v.as_slice(), start, v.len());
        proof {
            assert(b.subrange(0, b.len() as int) =~= b);
            lemma_line_end(b, start as int);
        }
        let (la, lb) = line_text_bounds(v.as_slice(), start, e, v.len());
        let (ta, tb) = trim_bounds(v.as_slice(), la, lb);
        let hit = equals_range(v.as_slice(), ta, tb, h.as_slice());
        proof {
            let ls = lines_from(b, start as int);
            assert(ls[0] == line_text(b, start as int, e as int));
            assert(ls.drop_first() =~= lines_from(b, e + 1));
            lemma_header_line_cons(ls);
        }
        if hit {
            return true;
        }
        if e >= v.len() {
            proof {
                let ls = lines_from(b, start as int);
                assert(lines_from(b, e + 1) =~= Seq::<Seq<char>>::empty());
            }
            return false;
        }
        start = e + 1;
    }
    proof {
        assert(lines_from(b, start as int) =~= Seq::<Seq<char>>::empty());
    }
    false
}

/// The desktop client's card: `config_path` is its config file where
/// this system keeps one.
pub fn desktop_status(installed: bool, config_path: Option<String>, registered: bool) -> (r:
    ClientStatus)
    ensures
        r.installed == installed,
        r.registered == registered,
        installed ==> r.detail@ == match config_path {
            Some(p) => p@,
            None => Seq::<char>::empty(),
        },
        !installed ==> r.detail@ == client_display_name_spec(McpClient::ClaudeDesktop)
            + " was not found on this machine"@,
{
    let detail = if installed {
        match config_path {
            Some(p) => p,
            None => String::new(),
        }
    } else {
        let mut d = client_display_name(McpClient::ClaudeDesktop);
        push_str(&mut d, " was not found on this machine");
        d
    };
    ClientStatus { installed, registered, detail }
}

/// The code client's card: `cli` is its resolved executable.
pub fn claude_code_status(cli: Option<String>, registered: bool) -> (r: ClientStatus)
    ensures
        r.installed == cli is Some,
        r.registered == registered,
        r.detail@ == match cli {
            Some(p) => p@,
            None => "the "@ + cli_name_spec(McpClient::ClaudeCode) + " CLI was not found on PATH"@,
        },
{
    let installed = cli.is_some();
    let detail = match cli {
        Some(p) => p,
        None => {
            let mut d = String::new();
            push_str(&mut d, "the ");
            let name = cli_name(McpClient::ClaudeCode);
            push_str(&mut d, name.as_str());
            push_str(&mut d, " CLI was not found on PATH");
            d
        },
    };
    ClientStatus { installed, registered, detail }
}

/// The Codex card, which covers every surface sharing `~/.codex`: `cli`
/// is the resolved `codex` executable, `home_exists` whether `~/.codex`
/// is there, `config_path` the config file inside it.
pub fn codex_status(
    cli: Option<String>,
    home_exists: bool,
    config_path: Option<String>,
    registered: bool,
) -> (r: ClientStatus)
    ensures
        r.installed == (cli is Some || home_exists),
        r.registered == registered,
        r.detail@ == match cli {
            Some(p) => p@,
            None => if home_exists && config_path is Some {
                config_path.unwrap()@
            } else {
                "neither the codex CLI nor ~/.codex was found"@
            },
        },
{
    let installed = cli.is_some() || home_exists;
    let detail = match cli {
        Some(p) => p,
        None => {
            if home_exists && config_path.is_some() {
                match config_path {
                    Some(c) => c,
                    None => String::new(),
                }
            } else {
                "neither the codex CLI nor ~/.codex was found".to_owned()
            }
        },
    };
    ClientStatus { installed, registered, detail }
}

/// The path a registration writes: the server's, when its binary is
/// present; a registration pointing at nothing is refused, saying where
/// the binary was expected.
pub fn registration_path(display: String, exists: bool) -> (r: Result<String, String>)
    ensures
        exists ==> (r matches Ok(p) && p@ == display@),
        !exists ==> (r matches Err(e) && e@ == "A part of embral this feature needs is missing (expected at "@
            + display@ + ") — reinstalling the app should fix this"@),
{
    if exists {
        Ok(display)
    } else {
        let mut m = String::new();
        push_str(&mut m, "A part of embral this feature needs is missing (expected at ");
        push_str(&mut m, display.as_str());
        push_str(&mut m, ") — reinstalling the app should fix this");
        Err(m)
    }
}

// --- The desktop client's JSON config ---

/// What `serde_json` makes of a text read as one JSON value: the parse
/// error's message when it is not JSON; `Ok(None)` when it is JSON but not
/// an object; else the object's members, each key with its value written
/// back as compact JSON (`Value`'s `Display`).
pub uninterp spec fn json_object_members(text: Seq<char>) -> Result<
    Option<Seq<(Seq<char>, Seq<char>)>>,
    Seq<char>,
>;

/// What `serde_json::to_string_pretty` writes for the JSON value a text
/// holds, or the error's message.
pub uninterp spec fn json_pretty(text: Seq<char>) -> Result<Seq<char>, Seq<char>>;


/// The view of a parse of a text into members.
pub open spec fn members_view(r: Result<Option<Vec<(String, String)>>, String>) -> Result<
    Option<Seq<(Seq<char>, Seq<char>)>>,
    Seq<char>,
> {
    match r {
        Err(e) => Err(e@),
        Ok(None) => Ok(None),
        Ok(Some(ms)) => Ok(Some(ms@.map_values(|m: (String, String)| (m.0@, m.1@)))),
    }
}

/// `serde_json::from_str::<Value>`, with an object's members converted to
/// key and compact text pairs and the error to its message. The result is
/// named `json_object_members` here.
#[verifier::external_body]
fn parse_json_members(text: &str) -> (r: Result<Option<Vec<(String, String)>>, String>)
    ensures
        members_view(r) == json_object_members(text@),
{
    match serde_json::from_str::<serde_json::Value>(text) {
        Err(e) => Err(e.to_string()),
        Ok(serde_json::Value::Object(m)) => Ok(Some(m.into_iter().map(|(k, v)| (k, v.to_string())).collect())),
        Ok(_) => Ok(None),
    }
}

/// `serde_json::to_string_pretty` of the value a JSON text holds (parsed
/// with `from_str`), or the error's message. The result is named
/// `json_pretty` here.
#[verifier::external_body]
fn pretty_json(text: &str) -> (r: Result<String, String>)
    ensures
        match r {
            Ok(t) => json_pretty(text@) == Ok::<Seq<char>, Seq<char>>(t@),
            Err(e) => json_pretty(text@) == Err::<Seq<char>, Seq<char>>(e@),
        },
{
    serde_json::from_str::<serde_json::Value>(text).and_then(|v| serde_json::to_string_pretty(&v)).map_err(|e| e.to_string())
}

/// `Value::String(s)` written by `Value`'s `Display`: `s` as the JSON string
/// literal `json_quoted` states.
#[verifier::external_body]
fn quote_json(s: &str) -> (r: String)
    ensures
        r@ == json_quoted(s@),
{
    serde_json::Value::String(s.to_owned()).to_string()
}

/// The value of the first member named `key`.
pub open spec fn member_value(members: Seq<(Seq<char>, Seq<char>)>, key: Seq<char>) -> Option<
    Seq<char>,
>
    decreases members.len(),
{
    if members.len() == 0 {
        None
    } else if members[0].0 == key {
        Some(members[0].1)
    } else {
        member_value(members.drop_first(), key)
    }
}

/// The members with `key` set to `value`: in place where it is a member,
/// else added at the end.
pub open spec fn with_member(
    members: Seq<(Seq<char>, Seq<char>)>,
    key: Seq<char>,
    value: Seq<char>,
) -> Seq<(Seq<char>, Seq<char>)> {
    if member_value(members, key) is Some {
        members.map_values(
            |m: (Seq<char>, Seq<char>)|
                if m.0 == key {
                    (key, value)
                } else {
                    m
                },
        )
    } else {
        members.push((key, value))
    }
}

/// The members other than `key`.
pub open spec fn without_member(members: Seq<(Seq<char>, Seq<char>)>, key: Seq<char>) -> Seq<
    (Seq<char>, Seq<char>),
>
    decreases members.len(),
{
    if members.len() == 0 {
        Seq::empty()
    } else {
        let prev = without_member(members.drop_last(), key);
        if members.last().0 == key {
            prev
        } else {
            prev.push(members.last())
        }
    }
}

/// The members' views.
pub open spec fn pairs_view(v: Seq<(String, String)>) -> Seq<(Seq<char>, Seq<char>)> {
    v.map_values(|m: (String, String)| (m.0@, m.1@))
}

proof fn lemma_member_value_prefix(members: Seq<(Seq<char>, Seq<char>)>, key: Seq<char>, i: int)
    requires
        0 <= i <= members.len(),
        forall|k: int| 0 <= k < i ==> (#[trigger] members[k]).0 != key,
    ensures
        member_value(members, key) == member_value(members.skip(i), key),
    decreases i,
{
    if i > 0 {
        assert(members[0].0 != key);
        assert(members.skip(1) =~= members.drop_first());
        assert forall|k: int| 0 <= k < i - 1 implies (#[trigger] members.drop_first()[k]).0 != key by {
            assert(members.drop_first()[k] == members[k + 1]);
        }
        lemma_member_value_prefix(members.drop_first(), key, i - 1);
        assert(members.drop_first().skip(i - 1) =~= members.skip(i));
    } else {
        assert(members.skip(0) =~= members);
    }
}

/// The value of the member named `key`, if any.
fn find_member(members: &[(String, String)], key: &str) -> (r: Option<String>)
    ensures
        match r {
            Some(v) => member_value(pairs_view(members@), key@) == Some(v@),
            None => member_value(pairs_view(members@), key@) is None,
        },
{
    let ghost mv = pairs_view(members@);
    let mut i: usize = 0;
    while i < members.len()
        invariant
            i <= members@.len(),
            mv == pairs_view(members@),
            forall|k: int| 0 <= k < i ==> (#[trigger] mv[k]).0 != key@,
        decreases members.len() - i,
    {
        proof {
            assert(mv[i as int] == (members@[i as int].0@, members@[i as int].1@));
        }
        if members[i].0.as_str().to_owned() == key.to_owned() {
            proof {
                lemma_member_value_prefix(mv, key@, i as int);
                assert(mv.skip(i as int)[0] == mv[i as int]);
            }
            return Some(members[i].1.as_str().to_owned());
        }
        i = i + 1;
    }
    proof {
        lemma_member_value_prefix(mv, key@, i as int);
        assert(mv.skip(i as int) =~= Seq::<(Seq<char>, Seq<char>)>::empty());
    }
    None
}

/// Sets the member `key` to `value`.
fn set_member(members: Vec<(String, String)>, key: &str, value: &str) -> (r: Vec<(String, String)>)
    ensures
        pairs_view(r@) == with_member(pairs_view(members@), key@, value@),
{
    let ghost mv = pairs_view(members@);
    let present = find_member(members.as_slice(), key).is_some();
    if !present {
        let mut out = members;
        out.push((key.to_owned(), value.to_owned()));
        proof {
            assert(pairs_view(out@) =~= mv.push((key@, value@)));
        }
        return out;
    }
    let mut out: Vec<(String, String)> = Vec::new();
    let mut i: usize = 0;
    while i < members.len()
        invariant
            i <= members@.len(),
            mv == pairs_view(members@),
            out@.len() == i,
            forall|k: int| 0 <= k < i ==> (#[trigger] pairs_view(out@)[k]) == (if mv[k].0 == key@ {
                (key@, value@)
            } else {
                mv[k]
            }),
        decreases members.len() - i,
    {
        proof {
            assert(mv[i as int] == (members@[i as int].0@, members@[i as int].1@));
        }
        let ghost before = out@;
        if members[i].0.as_str().to_owned() == key.to_owned() {
            out.push((key.to_owned(), value.to_owned()));
        } else {
            out.push((members[i].0.as_str().to_owned(), members[i].1.as_str().to_owned()));
        }
        proof {
            assert forall|k: int| 0 <= k < i + 1 implies (#[trigger] pairs_view(out@)[k]) == (if mv[k].0
                == key@ {
                (key@, value@)
            } else {
                mv[k]
            }) by {
                if k < i {
                    assert(out@[k] == before[k]);
                    assert(pairs_view(before)[k] == pairs_view(out@)[k]);
                }
            }
        }
        i = i + 1;
    }
    proof {
        assert(pairs_view(out@) =~= with_member(mv, key@, value@));
    }
    out
}

/// Drops the members named `key`, saying whether there were any.
fn remove_member(members: &[(String, String)], key: &str) -> (r: (Vec<(String, String)>, bool))
    ensures
        pairs_view(r.0@) == without_member(pairs_view(members@), key@),
        r.1 == (member_value(pairs_view(members@), key@) is Some),
{
    let ghost mv = pairs_view(members@);
    let found = find_member(members, key).is_some();
    let mut out: Vec<(String, String)> = Vec::new();
    let mut i: usize = 0;
    while i < members.len()
        invariant
            i <= members@.len(),
            mv == pairs_view(members@),
            pairs_view(out@) == without_member(mv.take(i as int), key@),
        decreases members.len() - i,
    {
        proof {
            assert(mv[i as int] == (members@[i as int].0@, members@[i as int].1@));
            assert(mv.take(i + 1).drop_last() =~= mv.take(i as int));
            assert(mv.take(i + 1).last() == mv[i as int]);
        }
        if members[i].0.as_str().to_owned() != key.to_owned() {
            out.push((members[i].0.as_str().to_owned(), members[i].1.as_str().to_owned()));
            proof {
                assert(pairs_view(out@) =~= without_member(mv.take(i as int), key@).push(mv[i as int]));
            }
        }
        i = i + 1;
    }
    proof {
        assert(mv.take(mv.len() as int) =~= mv);
    }
    (out, found)
}

/// What `serde_json` writes for an object of these members, each value
/// given as JSON text: the compact text of the object (`to_string`), or the
/// message of the first value that does not parse.
pub uninterp spec fn json_object_text(members: Seq<(Seq<char>, Seq<char>)>) -> Result<
    Seq<char>,
    Seq<char>,
>;

/// A `serde_json::Map` filled from the members, each value parsed with
/// `from_str::<Value>`, written by `serde_json::to_string`; an error by its
/// `Display`. The result is named `json_object_text` here.
#[verifier::external_body]
fn write_json_object(members: &[(String, String)]) -> (r: Result<String, String>)
    ensures
        match r {
            Ok(t) => json_object_text(pairs_view(members@)) == Ok::<Seq<char>, Seq<char>>(t@),
            Err(e) => json_object_text(pairs_view(members@)) == Err::<Seq<char>, Seq<char>>(e@),
        },
{
    let mut map = serde_json::Map::new();
    for (k, v) in members {
        map.insert(k.clone(), serde_json::from_str(v).map_err(|e: serde_json::Error| e.to_string())?);
    }
    serde_json::to_string(&serde_json::Value::Object(map)).map_err(|e| e.to_string())
}

/// Why a config edit was refused: `text` did not parse.
pub open spec fn not_json_message(error: Seq<char>) -> Seq<char> {
    "the existing config didn't parse as JSON ("@ + error + ") — not touching it"@
}

/// The members of our server's entry in a JSON config: its command.
pub open spec fn server_entry_members(command: Seq<char>) -> Seq<(Seq<char>, Seq<char>)> {
    seq![("command"@, json_quoted(command))]
}

/// What registering our server in a JSON config gives: `mcpServers.embral`
/// set to our command, every other member kept, an empty file taken as an
/// empty object; refused (with why) when the file is not JSON, not an
/// object, or has a `mcpServers` that is not an object.
pub open spec fn upsert_spec(existing: Seq<char>, command: Seq<char>) -> Result<Seq<char>, Seq<char>> {
    let root = if trim(existing).len() == 0 {
        Ok(Some(Seq::<(Seq<char>, Seq<char>)>::empty()))
    } else {
        json_object_members(existing)
    };
    match root {
        Err(e) => Err(not_json_message(e)),
        Ok(None) => Err("the existing config isn't a JSON object — not touching it"@),
        Ok(Some(members)) => {
            let servers = match member_value(members, "mcpServers"@) {
                None => Ok(Some(Seq::<(Seq<char>, Seq<char>)>::empty())),
                Some(raw) => json_object_members(raw),
            };
            match servers {
                Ok(Some(sm)) => match json_object_text(server_entry_members(command)) {
                    Err(e) => Err(e),
                    Ok(entry) => match json_object_text(with_member(sm, "embral"@, entry)) {
                        Err(e) => Err(e),
                        Ok(inner) => match json_object_text(with_member(members, "mcpServers"@, inner)) {
                            Err(e) => Err(e),
                            Ok(outer) => json_pretty(outer),
                        },
                    },
                },
                _ => Err("'mcpServers' isn't an object — not touching it"@),
            }
        },
    }
}

/// Sets `mcpServers.embral` in a JSON config, keeping every other member.
/// Refuses input it cannot read: a config we could not parse is never
/// clobbered.
pub fn upsert_mcp_server(existing: &str, command: &str) -> (r: Result<String, String>)
    ensures
        match r {
            Ok(t) => upsert_spec(existing@, command@) == Ok::<Seq<char>, Seq<char>>(t@),
            Err(e) => upsert_spec(existing@, command@) == Err::<Seq<char>, Seq<char>>(e@),
        },
{
    let blank = trim_string(existing).as_str().unicode_len() == 0;
    let parsed = if blank {
        let empty: Vec<(String, String)> = Vec::new();
        proof {
            assert(pairs_view(empty@) =~= Seq::<(Seq<char>, Seq<char>)>::empty());
        }
        Ok(Some(empty))
    } else {
        parse_json_members(existing)
    };
    proof {
        if blank {
            assert(members_view(parsed) == Ok::<
                Option<Seq<(Seq<char>, Seq<char>)>>,
                Seq<char>,
            >(Some(Seq::<(Seq<char>, Seq<char>)>::empty())));
        }
    }
    let members = match parsed {
        Err(e) => {
            let mut m = String::new();
            push_str(&mut m, "the existing config didn't parse as JSON (");
            push_str(&mut m, e.as_str());
            push_str(&mut m, ") — not touching it");
            return Err(m);
        },
        Ok(None) => {
            return Err("the existing config isn't a JSON object — not touching it".to_owned());
        },
        Ok(Some(ms)) => ms,
    };
    let servers = match find_member(members.as_slice(), "mcpServers") {
        None => {
            let empty: Vec<(String, String)> = Vec::new();
            proof {
                assert(pairs_view(empty@) =~= Seq::<(Seq<char>, Seq<char>)>::empty());
            }
            Ok(Some(empty))
        },
        Some(raw) => parse_json_members(raw.as_str()),
    };
    let server_members = match servers {
        Ok(Some(sm)) => sm,
        _ => {
            return Err("'mcpServers' isn't an object — not touching it".to_owned());
        },
    };
    let entry_members = vec![("command".to_owned(), quote_json(command))];
    proof {
        reveal_strlit("command");
        assert(pairs_view(entry_members@) =~= server_entry_members(command@));
    }
    let entry = write_json_object(entry_members.as_slice())?;
    let server_members = set_member(server_members, "embral", entry.as_str());
    let servers_text = write_json_object(server_members.as_slice())?;
    let members = set_member(members, "mcpServers", servers_text.as_str());
    let root_text = write_json_object(members.as_slice())?;
    pretty_json(root_text.as_str())
}

/// What unregistering our server from a JSON config gives: `Ok(None)` when
/// it was not registered (no `mcpServers` object with an `embral` member),
/// else the config without it; refused when the file is not JSON.
pub open spec fn remove_spec(existing: Seq<char>) -> Result<Option<Seq<char>>, Seq<char>> {
    match json_object_members(existing) {
        Err(e) => Err(not_json_message(e)),
        Ok(None) => Ok(None),
        Ok(Some(members)) => match member_value(members, "mcpServers"@) {
            None => Ok(None),
            Some(raw) => match json_object_members(raw) {
                Ok(Some(sm)) => if member_value(sm, "embral"@) is Some {
                    match json_object_text(without_member(sm, "embral"@)) {
                        Err(e) => Err(e),
                        Ok(inner) => match json_object_text(with_member(members, "mcpServers"@, inner)) {
                            Err(e) => Err(e),
                            Ok(outer) => match json_pretty(outer) {
                                Ok(t) => Ok(Some(t)),
                                Err(e) => Err(e),
                            },
                        },
                    }
                } else {
                    Ok(None)
                },
                _ => Ok(None),
            },
        },
    }
}

/// Removes `mcpServers.embral` from a JSON config; `Ok(None)` when it was
/// not there.
pub fn remove_mcp_server(existing: &str) -> (r: Result<Option<String>, String>)
    ensures
        match r {
            Ok(Some(t)) => remove_spec(existing@) == Ok::<Option<Seq<char>>, Seq<char>>(Some(t@)),
            Ok(None) => remove_spec(existing@) == Ok::<Option<Seq<char>>, Seq<char>>(None),
            Err(e) => remove_spec(existing@) == Err::<Option<Seq<char>>, Seq<char>>(e@),
        },
{
    let members = match parse_json_members(existing) {
        Err(e) => {
            let mut m = String::new();
            push_str(&mut m, "the existing config didn't parse as JSON (");
            push_str(&mut m, e.as_str());
            push_str(&mut m, ") — not touching it");
            return Err(m);
        },
        Ok(None) => return Ok(None),
        Ok(Some(ms)) => ms,
    };
    let raw = match find_member(members.as_slice(), "mcpServers") {
        None => return Ok(None),
        Some(raw) => raw,
    };
    let server_members = match parse_json_members(raw.as_str()) {
        Ok(Some(sm)) => sm,
        _ => return Ok(None),
    };
    let (kept, removed) = remove_member(server_members.as_slice(), "embral");
    if !removed {
        return Ok(None);
    }
    let servers_text = write_json_object(kept.as_slice())?;
    let members = set_member(members, "mcpServers", servers_text.as_str());
    let root_text = write_json_object(members.as_slice())?;
    match pretty_json(root_text.as_str()) {
        Ok(t) => Ok(Some(t)),
        Err(e) => Err(e),
    }
}

/// Whether a JSON config (its text, when the file could be read) has our
/// server: `mcpServers.embral` is an object.
pub open spec fn json_registered_spec(text: Option<Seq<char>>) -> bool {
    match text {
        None => false,
        Some(t) => match json_object_members(t) {
            Ok(Some(members)) => match member_value(members, "mcpServers"@) {
                Some(raw) => match json_object_members(raw) {
                    Ok(Some(sm)) => match member_value(sm, "embral"@) {
                        Some(e) => json_object_members(e) matches Ok(Some(_)),
                        None => false,
                    },
                    _ => false,
                },
                None => false,
            },
            _ => false,
        },
    }
}

/// Whether a JSON config registers our server.
pub fn json_registered(config_text: Option<&str>) -> (r: bool)
    ensures
        r == json_registered_spec(
            match config_text {
                Some(t) => Some(t@),
                None => None,
            },
        ),
{
    let text = match config_text {
        Some(t) => t,
        None => return false,
    };
    let members = match parse_json_members(text) {
        Ok(Some(ms)) => ms,
        _ => return false,
    };
    let raw = match find_member(members.as_slice(), "mcpServers") {
        Some(raw) => raw,
        None => return false,
    };
    let server_members = match parse_json_members(raw.as_str()) {
        Ok(Some(sm)) => sm,
        _ => return false,
    };
    let entry = match find_member(server_members.as_slice(), "embral") {
        Some(e) => e,
        None => return false,
    };
    match parse_json_members(entry.as_str()) {
        Ok(Some(_)) => true,
        _ => false,
    }
}

proof fn lemma_member_value_pointwise(
    a: Seq<(Seq<char>, Seq<char>)>,
    b: Seq<(Seq<char>, Seq<char>)>,
    key: Seq<char>,
    value: Seq<char>,
    other: Seq<char>,
)
    requires
        a.len() == b.len(),
        forall|i: int| 0 <= i < a.len() ==> #[trigger] b[i] == if a[i].0 == key {
            (key, value)
        } else {
            a[i]
        },
    ensures
        member_value(b, other) == if member_value(a, other) is Some && other == key {
            Some(value)
        } else {
            member_value(a, other)
        },
    decreases a.len(),
{
    if a.len() > 0 {
        assert forall|i: int| 0 <= i < a.drop_first().len() implies #[trigger] b.drop_first()[i] == if a.drop_first()[i].0
            == key {
            (key, value)
        } else {
            a.drop_first()[i]
        } by {
            assert(b.drop_first()[i] == b[i + 1]);
            assert(a.drop_first()[i] == a[i + 1]);
        }
        assert(b[0] == if a[0].0 == key {
            (key, value)
        } else {
            a[0]
        });
        lemma_member_value_pointwise(a.drop_first(), b.drop_first(), key, value, other);
    }
}

proof fn lemma_member_value_push(
    members: Seq<(Seq<char>, Seq<char>)>,
    m: (Seq<char>, Seq<char>),
    other: Seq<char>,
)
    ensures
        member_value(members.push(m), other) == match member_value(members, other) {
            Some(v) => Some(v),
            None => if m.0 == other {
                Some(m.1)
            } else {
                None
            },
        },
    decreases members.len(),
{
    if members.len() > 0 {
        assert(members.push(m)[0] == members[0]);
        assert(members.push(m).drop_first() =~= members.drop_first().push(m));
        lemma_member_value_push(members.drop_first(), m, other);
    } else {
        let e = Seq::<(Seq<char>, Seq<char>)>::empty();
        assert(members =~= e);
        assert(members.push(m)[0] == m);
        assert(members.push(m).drop_first() =~= e);
        assert(member_value(e, other) is None);
        assert(member_value(members.push(m).drop_first(), other) is None);
    }
}

/// Setting a member changes that member and no other: every other key
/// reads as before, and the key reads as the new value.
pub proof fn lemma_setting_a_member_keeps_the_others(
    members: Seq<(Seq<char>, Seq<char>)>,
    key: Seq<char>,
    value: Seq<char>,
    other: Seq<char>,
)
    ensures
        member_value(with_member(members, key, value), other) == if other == key {
            Some(value)
        } else {
            member_value(members, other)
        },
{
    if member_value(members, key) is Some {
        let b = with_member(members, key, value);
        assert forall|i: int| 0 <= i < members.len() implies #[trigger] b[i] == if members[i].0 == key {
            (key, value)
        } else {
            members[i]
        } by {}
        lemma_member_value_pointwise(members, b, key, value, other);
    } else {
        lemma_member_value_push(members, (key, value), other);
    }
}

proof fn lemma_without_member_value(
    members: Seq<(Seq<char>, Seq<char>)>,
    key: Seq<char>,
    other: Seq<char>,
)
    ensures
        member_value(without_member(members, key), other) == if other == key {
            None
        } else {
            member_value(members, other)
        },
    decreases members.len(),
{
    if members.len() > 0 {
        let init = members.drop_last();
        lemma_without_member_value(init, key, other);
        lemma_member_value_push(init, members.last(), other);
        assert(init.push(members.last()) =~= members);
        if members.last().0 != key {
            lemma_member_value_push(without_member(init, key), members.last(), other);
        }
    }
}

/// Registering our server keeps every other top-level member and every
/// other server as they were, and sets ours to our entry; unregistering
/// takes only ours.
pub proof fn lemma_registration_touches_only_our_entry(
    members: Seq<(Seq<char>, Seq<char>)>,
    servers: Seq<(Seq<char>, Seq<char>)>,
    entry: Seq<char>,
    servers_text: Seq<char>,
    other: Seq<char>,
)
    ensures
        other != "mcpServers"@ ==> member_value(
            with_member(members, "mcpServers"@, servers_text),
            other,
        ) == member_value(members, other),
        other != "embral"@ ==> member_value(with_member(servers, "embral"@, entry), other)
            == member_value(servers, other),
        member_value(with_member(servers, "embral"@, entry), "embral"@) == Some(entry),
        other != "embral"@ ==> member_value(without_member(servers, "embral"@), other)
            == member_value(servers, other),
        member_value(without_member(servers, "embral"@), "embral"@) is None,
{
    lemma_setting_a_member_keeps_the_others(members, "mcpServers"@, servers_text, other);
    lemma_setting_a_member_keeps_the_others(servers, "embral"@, entry, other);
    lemma_setting_a_member_keeps_the_others(servers, "embral"@, entry, "embral"@);
    lemma_without_member_value(servers, "embral"@, other);
    lemma_without_member_value(servers, "embral"@, "embral"@);
}

// --- The shared Codex TOML config ---

/// Whether `toml_edit` can set an entry under the document's `key`: the
/// text does not parse (nothing is edited then), or the key is absent or
/// holds a table or an inline table. Any other value there (a number, a
/// string, an array of tables) makes `toml_edit`'s indexing panic.
pub uninterp spec fn toml_table_slot_ok(text: Seq<char>, key: Seq<char>) -> bool;

/// What `toml_edit` makes of a config text with the entry `entry_key` of
/// the table `table_key` set to a table of the given string fields and
/// empty-array fields, every other table, key and comment kept as written
/// (the table's own header made implicit when `implicit`): the document
/// written back, or the parse error's message.
pub uninterp spec fn toml_with_entry(
    text: Seq<char>,
    table_key: Seq<char>,
    implicit: bool,
    entry_key: Seq<char>,
    string_fields: Seq<(Seq<char>, Seq<char>)>,
    empty_array_fields: Seq<Seq<char>>,
) -> Result<Seq<char>, Seq<char>>;

/// What `toml_edit` makes of a config text with the entry `entry_key` of
/// the table `table_key` removed: whether an entry was removed, and the
/// document written back; or the parse error's message.
pub uninterp spec fn toml_without_entry(text: Seq<char>, table_key: Seq<char>, entry_key: Seq<char>) -> Result<
    (bool, Seq<char>),
    Seq<char>,
>;

/// `toml_edit::DocumentMut` parsed from the text, then its `key` item looked
/// up (`Table::get`) and told apart (`is_table_like`). The result is named
/// `toml_table_slot_ok` here.
#[verifier::external_body]
fn toml_slot_is_table(text: &str, key: &str) -> (r: bool)
    ensures
        r == toml_table_slot_ok(text@, key@),
{
    match text.parse::<toml_edit::DocumentMut>() {
        Err(_) => true,
        Ok(doc) => match doc.get(key) {
            None => true,
            Some(item) => item.is_table_like(),
        },
    }
}

/// `toml_edit`: the text parsed as a `DocumentMut`; the `table_key` item
/// taken or inserted (`or_insert(table())`), `set_implicit(implicit)` when
/// it is a table; a `Table` built of the string fields (`value`) and the
/// empty arrays (`Array::new`) set at `entry_key`; the document written by
/// `to_string`; the parse error by its `Display`. The result is named
/// `toml_with_entry`.
#[verifier::external_body]
fn toml_set_entry(
    text: &str,
    table_key: &str,
    implicit: bool,
    entry_key: &str,
    string_fields: &[(String, String)],
    empty_array_fields: &[String],
) -> (r: Result<String, String>)
    requires
        toml_table_slot_ok(text@, table_key@),
    ensures
        ({
            let named = toml_with_entry(
                text@,
                table_key@,
                implicit,
                entry_key@,
                string_fields@.map_values(|f: (String, String)| (f.0@, f.1@)),
                views(empty_array_fields@),
            );
            match r {
                Ok(t) => named == Ok::<Seq<char>, Seq<char>>(t@),
                Err(e) => named == Err::<Seq<char>, Seq<char>>(e@),
            }
        }),
{
    let mut doc: toml_edit::DocumentMut = text.parse().map_err(|e: toml_edit::TomlError| e.to_string())?;
    let table = doc[table_key].or_insert(toml_edit::table());
    if let Some(t) = table.as_table_mut() {
        t.set_implicit(implicit);
    }
    let mut entry = toml_edit::Table::new();
    for (k, v) in string_fields {
        entry[k.as_str()] = toml_edit::value(v.as_str());
    }
    for k in empty_array_fields {
        entry[k.as_str()] = toml_edit::value(toml_edit::Array::new());
    }
    table[entry_key] = toml_edit::Item::Table(entry);
    Ok(doc.to_string())
}

/// `toml_edit`: the text parsed as a `DocumentMut`, `entry_key` removed from
/// the `table_key` item when that is a table (`get_mut`, `as_table_mut`,
/// `remove`), and the document written by `to_string`; the parse error by
/// its `Display`. The result is named `toml_without_entry`.
#[verifier::external_body]
fn toml_drop_entry(text: &str, table_key: &str, entry_key: &str) -> (r: Result<(bool, String), String>)
    ensures
        match r {
            Ok((removed, t)) => toml_without_entry(text@, table_key@, entry_key@) == Ok::<
                (bool, Seq<char>),
                Seq<char>,
            >((removed, t@)),
            Err(e) => toml_without_entry(text@, table_key@, entry_key@) == Err::<(bool, Seq<char>), Seq<char>>(
                e@,
            ),
        },
{
    let mut doc: toml_edit::DocumentMut = text.parse().map_err(|e: toml_edit::TomlError| e.to_string())?;
    let removed = doc.get_mut(table_key).and_then(|s| s.as_table_mut()).and_then(|s| s.remove(entry_key)).is_some();
    Ok((removed, doc.to_string()))
}

/// The fields of our server's Codex entry that are strings: its command.
pub open spec fn codex_entry_strings(server_path: Seq<char>) -> Seq<(Seq<char>, Seq<char>)> {
    seq![("command"@, server_path)]
}

/// The fields of our server's Codex entry that are empty arrays: its
/// arguments.
pub open spec fn codex_entry_arrays() -> Seq<Seq<char>> {
    seq!["args"@]
}

/// The Codex config with `mcp_servers.embral` set to our entry, the
/// `[mcp_servers]` header implicit (it holds only sub-tables).
pub open spec fn codex_with_server(text: Seq<char>, server_path: Seq<char>) -> Result<Seq<char>, Seq<char>> {
    toml_with_entry(
        text,
        "mcp_servers"@,
        true,
        "embral"@,
        codex_entry_strings(server_path),
        codex_entry_arrays(),
    )
}

/// The refusal for a config that does not parse: it is never clobbered.
pub open spec fn toml_refusal(error: Seq<char>) -> Seq<char> {
    "the existing config didn't parse as TOML ("@ + error + ") — not touching it"@
}

/// The refusal for a config whose `mcp_servers` is neither a table nor
/// absent: there is nowhere to put our entry without rewriting the user's.
pub open spec fn servers_slot_refusal() -> Seq<char> {
    "the existing config's mcp_servers is not a table — not touching it"@
}

fn toml_refusal_text(error: String) -> (r: String)
    ensures
        r@ == toml_refusal(error@),
{
    let mut m = String::new();
    push_str(&mut m, "the existing config didn't parse as TOML (");
    push_str(&mut m, error.as_str());
    push_str(&mut m, ") — not touching it");
    proof {
        reveal_strlit("the existing config didn't parse as TOML (");
        reveal_strlit(") — not touching it");
    }
    m
}

/// The Codex config with our server set, every other table, key and
/// comment kept as written. A config that does not parse is refused, never
/// clobbered; so is one whose `mcp_servers` holds something other than a
/// table.
pub fn upsert_codex_server(existing: &str, server_path: &str) -> (r: Result<String, String>)
    ensures
        !toml_table_slot_ok(existing@, "mcp_servers"@) ==> (r matches Err(m) && m@
            == servers_slot_refusal()),
        toml_table_slot_ok(existing@, "mcp_servers"@) ==> match codex_with_server(
            existing@,
            server_path@,
        ) {
            Ok(t) => r matches Ok(s) && s@ == t,
            Err(e) => r matches Err(m) && m@ == toml_refusal(e),
        },
{
    if !toml_slot_is_table(existing, "mcp_servers") {
        proof {
            reveal_strlit("the existing config's mcp_servers is not a table — not touching it");
        }
        return Err("the existing config's mcp_servers is not a table — not touching it".to_owned());
    }
    let strings = vec![("command".to_owned(), server_path.to_owned())];
    let arrays = vec!["args".to_owned()];
    proof {
        assert(strings@.map_values(|f: (String, String)| (f.0@, f.1@)) =~= codex_entry_strings(
            server_path@,
        ));
        assert(views(arrays@) =~= codex_entry_arrays());
    }
    match toml_set_entry(existing, "mcp_servers", true, "embral", strings.as_slice(), arrays.as_slice()) {
        Ok(t) => Ok(t),
        Err(e) => Err(toml_refusal_text(e)),
    }
}

/// The Codex config without our server; `Ok(None)` when it was not there.
/// A config that does not parse is refused.
pub fn remove_codex_server(existing: &str) -> (r: Result<Option<String>, String>)
    ensures
        match toml_without_entry(existing@, "mcp_servers"@, "embral"@) {
            Ok((true, t)) => r matches Ok(Some(s)) && s@ == t,
            Ok((false, _)) => r matches Ok(None),
            Err(e) => r matches Err(m) && m@ == toml_refusal(e),
        },
{
    match toml_drop_entry(existing, "mcp_servers", "embral") {
        Ok((true, t)) => Ok(Some(t)),
        Ok((false, _)) => Ok(None),
        Err(e) => Err(toml_refusal_text(e)),
    }
}


// --- How a registration change reaches a client ---

/// How registering or unregistering reaches a client.
pub enum RegistrationRoute {
    /// Edit the desktop app's JSON config file.
    DesktopFile,
    /// Edit the shared Codex TOML config file directly: no `codex` CLI is
    /// here, and the desktop app, the CLI and the IDE extension all read
    /// that file.
    CodexFile,
    /// Run the client's CLI: `cleanup` first when there is one (its outcome
    /// ignored; `add` refuses a name that exists, and this also refreshes
    /// a moved path), then `args`; `success` is the message when `args`
    /// exits cleanly.
    Cli { cleanup: Option<Vec<String>>, args: Vec<String>, success: String },
    /// The client is driven only by its CLI, and that was not found.
    Refused(String),
}

/// A route's view: which route, and its plain values.
pub open spec fn route_view(r: RegistrationRoute) -> (int, Option<Seq<Seq<char>>>, Seq<Seq<char>>, Seq<char>) {
    match r {
        RegistrationRoute::DesktopFile => (0, None, Seq::empty(), Seq::empty()),
        RegistrationRoute::CodexFile => (1, None, Seq::empty(), Seq::empty()),
        RegistrationRoute::Cli { cleanup, args, success } => (
            2,
            match cleanup {
                Some(c) => Some(views(c@)),
                None => None,
            },
            views(args@),
            success@,
        ),
        RegistrationRoute::Refused(m) => (3, None, Seq::empty(), m@),
    }
}

/// The refusal when a client's CLI is not on PATH.
pub open spec fn no_cli_message(client: McpClient) -> Seq<char> {
    "the "@ + cli_name_spec(client) + " CLI was not found on PATH"@
}

/// The arguments that remove our server with a client's CLI.
pub open spec fn remove_args(client: McpClient) -> Seq<Seq<char>> {
    if client == McpClient::ClaudeCode {
        seq!["mcp"@, "remove"@, "--scope"@, "user"@, "embral"@]
    } else {
        seq!["mcp"@, "remove"@, "embral"@]
    }
}

/// The arguments that add our server, at `display`, with a client's CLI.
pub open spec fn add_args(client: McpClient, display: Seq<char>) -> Seq<Seq<char>> {
    if client == McpClient::ClaudeCode {
        seq!["mcp"@, "add"@, "--scope"@, "user"@, "embral"@, "--"@, display]
    } else {
        seq!["mcp"@, "add"@, "embral"@, "--"@, display]
    }
}

/// The route registering takes: the desktop app's file; the code client's
/// CLI, refused without it; the Codex CLI when found, else its file.
pub open spec fn register_route_spec(client: McpClient, display: Seq<char>, cli_found: bool) -> (
    int,
    Option<Seq<Seq<char>>>,
    Seq<Seq<char>>,
    Seq<char>,
) {
    match client {
        McpClient::ClaudeDesktop => (0, None, Seq::empty(), Seq::empty()),
        McpClient::ClaudeCode => if cli_found {
            (
                2,
                Some(remove_args(client)),
                add_args(client, display),
                "Registered with "@ + client_display_name_spec(client) + " for every project"@,
            )
        } else {
            (3, None, Seq::empty(), no_cli_message(client))
        },
        McpClient::Codex => if cli_found {
            (2, Some(remove_args(client)), add_args(client, display), "Registered with ChatGPT and Codex"@)
        } else {
            (1, None, Seq::empty(), Seq::empty())
        },
    }
}

/// The route unregistering takes: as registering, with removal only.
pub open spec fn unregister_route_spec(client: McpClient, cli_found: bool) -> (
    int,
    Option<Seq<Seq<char>>>,
    Seq<Seq<char>>,
    Seq<char>,
) {
    match client {
        McpClient::ClaudeDesktop => (0, None, Seq::empty(), Seq::empty()),
        McpClient::ClaudeCode => if cli_found {
            (2, None, remove_args(client), "Removed from "@ + client_display_name_spec(client))
        } else {
            (3, None, Seq::empty(), no_cli_message(client))
        },
        McpClient::Codex => if cli_found {
            (2, None, remove_args(client), "Removed from ChatGPT and Codex"@)
        } else {
            (1, None, Seq::empty(), Seq::empty())
        },
    }
}

/// The views of string slices.
pub open spec fn str_views(v: Seq<&str>) -> Seq<Seq<char>> {
    v.map_values(|s: &str| s@)
}

fn owned_args(items: &[&str]) -> (r: Vec<String>)
    ensures
        views(r@) == str_views(items@),
{
    let mut out: Vec<String> = Vec::new();
    let mut i: usize = 0;
    while i < items.len()
        invariant
            i <= items@.len(),
            out@.len() == i,
            forall|k: int| 0 <= k < i ==> (#[trigger] out@[k])@ == items@[k]@,
        decreases items.len() - i,
    {
        let t = items[i].to_owned();
        out.push(t);
        i = i + 1;
    }
    proof {
        assert forall|k: int| 0 <= k < out@.len() implies views(out@)[k] == str_views(items@)[k] by {
            assert(out@[k]@ == items@[k]@);
        }
        assert(views(out@) =~= str_views(items@));
    }
    out
}

fn remove_args_exec(client: McpClient) -> (r: Vec<String>)
    ensures
        views(r@) == remove_args(client),
{
    let r = if client == McpClient::ClaudeCode {
        owned_args(&["mcp", "remove", "--scope", "user", "embral"])
    } else {
        owned_args(&["mcp", "remove", "embral"])
    };
    proof {
        assert(views(r@) =~= remove_args(client));
    }
    r
}

fn add_args_exec(client: McpClient, display: &str) -> (r: Vec<String>)
    ensures
        views(r@) == add_args(client, display@),
{
    let r = if client == McpClient::ClaudeCode {
        owned_args(&["mcp", "add", "--scope", "user", "embral", "--", display])
    } else {
        owned_args(&["mcp", "add", "embral", "--", display])
    };
    proof {
        assert(views(r@) =~= add_args(client, display@));
    }
    r
}

fn no_cli_text(client: McpClient) -> (r: String)
    ensures
        r@ == no_cli_message(client),
{
    let mut m = String::new();
    push_str(&mut m, "the ");
    let tool = cli_name(client);
    push_str(&mut m, tool.as_str());
    push_str(&mut m, " CLI was not found on PATH");
    m
}

/// How registering our server at `display` reaches `client`;
/// `cli_found` is whether the client's CLI is on PATH.
pub fn register_route(client: McpClient, display: &str, cli_found: bool) -> (r: RegistrationRoute)
    ensures
        route_view(r) == register_route_spec(client, display@, cli_found),
        client == McpClient::ClaudeDesktop ==> r is DesktopFile,
        client == McpClient::Codex && !cli_found ==> r is CodexFile,
        client != McpClient::ClaudeDesktop && cli_found ==> r is Cli,
        client == McpClient::ClaudeCode && !cli_found ==> r is Refused,
{
    match client {
        McpClient::ClaudeDesktop => RegistrationRoute::DesktopFile,
        McpClient::ClaudeCode => {
            if !cli_found {
                return RegistrationRoute::Refused(no_cli_text(client));
            }
            let mut success = String::new();
            push_str(&mut success, "Registered with ");
            let name = client_display_name(client);
            push_str(&mut success, name.as_str());
            push_str(&mut success, " for every project");
            RegistrationRoute::Cli {
                cleanup: Some(remove_args_exec(client)),
                args: add_args_exec(client, display),
                success,
            }
        },
        McpClient::Codex => {
            if !cli_found {
                return RegistrationRoute::CodexFile;
            }
            RegistrationRoute::Cli {
                cleanup: Some(remove_args_exec(client)),
                args: add_args_exec(client, display),
                success: "Registered with ChatGPT and Codex".to_owned(),
            }
        },
    }
}

/// How unregistering our server reaches `client`.
pub fn unregister_route(client: McpClient, cli_found: bool) -> (r: RegistrationRoute)
    ensures
        route_view(r) == unregister_route_spec(client, cli_found),
        client == McpClient::ClaudeDesktop ==> r is DesktopFile,
        client == McpClient::Codex && !cli_found ==> r is CodexFile,
        client != McpClient::ClaudeDesktop && cli_found ==> r is Cli,
        client == McpClient::ClaudeCode && !cli_found ==> r is Refused,
{
    match client {
        McpClient::ClaudeDesktop => RegistrationRoute::DesktopFile,
        McpClient::ClaudeCode => {
            if !cli_found {
                return RegistrationRoute::Refused(no_cli_text(client));
            }
            let mut success = String::new();
            push_str(&mut success, "Removed from ");
            let name = client_display_name(client);
            push_str(&mut success, name.as_str());
            RegistrationRoute::Cli { cleanup: None, args: remove_args_exec(client), success }
        },
        McpClient::Codex => {
            if !cli_found {
                return RegistrationRoute::CodexFile;
            }
            RegistrationRoute::Cli {
                cleanup: None,
                args: remove_args_exec(client),
                success: "Removed from ChatGPT and Codex".to_owned(),
            }
        },
    }
}

/// Unregistering reaches a client the way registering does: the same
/// kind of route (the desktop app's file, the Codex file when its CLI is
/// missing, the CLI when found, a refusal only for the code client without
/// its CLI), whatever the client and whether its CLI is on PATH.
pub proof fn lemma_unregister_takes_the_register_route(client: McpClient, display: Seq<char>, cli_found: bool)
    ensures
        unregister_route_spec(client, cli_found).0 == register_route_spec(client, display, cli_found).0,
        client == McpClient::Codex && !cli_found ==> unregister_route_spec(client, cli_found).0 == 1,
        client == McpClient::ClaudeDesktop ==> unregister_route_spec(client, cli_found).0 == 0,
{
}

/// The name a config file's client goes by in messages: the desktop app's
/// display name, ChatGPT for the Codex file.
pub open spec fn file_client_name(client: McpClient) -> Seq<char> {
    if client == McpClient::Codex {
        "ChatGPT"@
    } else {
        client_display_name_spec(client)
    }
}

fn file_client_text(client: McpClient) -> (r: String)
    ensures
        r@ == file_client_name(client),
{
    if client == McpClient::Codex {
        "ChatGPT".to_owned()
    } else {
        client_display_name(client)
    }
}

/// What a registration written to a client's config file reports.
pub fn file_registered_message(client: McpClient) -> (r: String)
    ensures
        r@ == "Registered — restart "@ + file_client_name(client) + " to pick up embral"@,
{
    let mut m = String::new();
    push_str(&mut m, "Registered — restart ");
    let name = file_client_text(client);
    push_str(&mut m, name.as_str());
    push_str(&mut m, " to pick up embral");
    m
}

/// What an unregistration from a client's config file reports: the entry
/// was removed, or there was none to remove.
pub fn file_removed_message(client: McpClient, removed: bool) -> (r: String)
    ensures
        removed ==> r@ == "Removed — restart "@ + file_client_name(client) + " to apply"@,
        !removed && client == McpClient::Codex ==> r@ == "embral wasn't registered with ChatGPT or Codex"@,
        !removed && client != McpClient::Codex ==> r@ == "embral wasn't registered with "@
            + client_display_name_spec(client),
{
    let mut m = String::new();
    if removed {
        push_str(&mut m, "Removed — restart ");
        let name = file_client_text(client);
        push_str(&mut m, name.as_str());
        push_str(&mut m, " to apply");
    } else if client == McpClient::Codex {
        push_str(&mut m, "embral wasn't registered with ChatGPT or Codex");
    } else {
        push_str(&mut m, "embral wasn't registered with ");
        let name = client_display_name(client);
        push_str(&mut m, name.as_str());
    }
    m
}

/// The refusal when there is no config file to unregister from.
pub fn missing_config_message(client: McpClient) -> (r: String)
    ensures
        client == McpClient::Codex ==> r@ == "no Codex config file to edit"@,
        client != McpClient::Codex ==> r@ == "no "@ + client_display_name_spec(client)
            + " config file to edit"@,
{
    let mut m = String::new();
    if client == McpClient::Codex {
        push_str(&mut m, "no Codex config file to edit");
    } else {
        push_str(&mut m, "no ");
        let name = client_display_name(client);
        push_str(&mut m, name.as_str());
        push_str(&mut m, " config file to edit");
    }
    m
}


// --- The stable server copy under an AppImage ---

/// What the stable copy's refresh does after reading the two files' sizes.
pub enum StableCopyCheck {
    /// A file is missing or the sizes differ: copy the server over.
    Copy,
    /// The sizes agree: compare the bytes, and copy only when they differ.
    CompareBytes,
}

/// Whether the stable copy needs a byte comparison or a copy outright.
pub fn stable_copy_check(source_len: Option<u64>, copy_len: Option<u64>) -> (r: StableCopyCheck)
    ensures
        r is CompareBytes <==> (source_len is Some && copy_len == source_len),
{
    match (source_len, copy_len) {
        (Some(a), Some(b)) => if a == b {
            StableCopyCheck::CompareBytes
        } else {
            StableCopyCheck::Copy
        },
        _ => StableCopyCheck::Copy,
    }
}

/// After a byte comparison: the copy is rewritten only when its bytes
/// differ from the server's.
pub fn stable_copy_differs(source: &[u8], copy: &[u8]) -> (r: bool)
    ensures
        r == (source@ != copy@),
{
    if source.len() != copy.len() {
        return true;
    }
    let mut i: usize = 0;
    while i < source.len()
        invariant
            source@.len() == copy@.len(),
            i <= source@.len(),
            forall|k: int| 0 <= k < i ==> source@[k] == copy@[k],
        decreases source.len() - i,
    {
        if source[i] != copy[i] {
            return true;
        }
        i = i + 1;
    }
    proof {
        assert(source@ =~= copy@);
    }
    false
}

/// Whether clients are handed the stable per-user copy rather than the
/// sidecar beside the app: only under an AppImage (whose mount path dies
/// with the process), and not when refreshing the copy from a present
/// sidecar failed; that degrades to the sidecar path, never to nothing.
pub fn hands_out_stable_copy(in_appimage: bool, sidecar_exists: bool, refresh_failed: bool) -> (r: bool)
    ensures
        r == (in_appimage && !(sidecar_exists && refresh_failed)),
{
    in_appimage && !(sidecar_exists && refresh_failed)
}

} // verus!
