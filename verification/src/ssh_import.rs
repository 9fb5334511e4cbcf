//! Decisions of importing a browser session over SSH: validating the form,
//! choosing how to authenticate, the command to run on the remote machine and
//! reading what it printed.
use vstd::prelude::*;
use crate::auth::{browser_token_spec, decode_browser_token, nonempty_opt, opt_str};
use crate::crypto::view_string;
use crate::text::{
    chars_of, chars_starts_with, concat2, count_char, count_chars, dec, dec_int, first_pos, has_char, find_char,
    i64_to_string, is_alphanumeric, is_ascii_alnum, lines_spec, owned, push_char, push_str, split_lines,
    starts_with_seq, str_eq, str_contains, contains_seq, string_of, strip_prefix_chars, sub_chars, trim, trim_seq,
    u64_to_string, unicode_alphanumeric,
};

verus! {

// ----- the form -----

/// A host name may hold letters and digits (Unicode), dots, hyphens and
/// underscores.
pub open spec fn host_char(c: char) -> bool {
    unicode_alphanumeric(c) || c == '.' || c == '-' || c == '_'
}

/// A user name may hold letters and digits (Unicode), underscores and hyphens.
pub open spec fn user_char(c: char) -> bool {
    unicode_alphanumeric(c) || c == '_' || c == '-'
}

pub fn valid_ssh_host(host: &str) -> (r: bool)
    ensures
        r == forall|i: int| 0 <= i < host@.len() ==> host_char(#[trigger] host@[i]),
{
    let cs = chars_of(host);
    let mut i: usize = 0;
    while i < cs.len()
        invariant
            cs@ == host@,
            i <= cs@.len(),
            forall|j: int| 0 <= j < i ==> host_char(#[trigger] host@[j]),
        decreases cs@.len() - i,
    {
        let c = cs[i];
        if !(is_alphanumeric(c) || c == '.' || c == '-' || c == '_') {
            return false;
        }
        i += 1;
    }
    true
}

pub fn valid_ssh_user(user: &str) -> (r: bool)
    ensures
        r == forall|i: int| 0 <= i < user@.len() ==> user_char(#[trigger] user@[i]),
{
    let cs = chars_of(user);
    let mut i: usize = 0;
    while i < cs.len()
        invariant
            cs@ == user@,
            i <= cs@.len(),
            forall|j: int| 0 <= j < i ==> user_char(#[trigger] user@[j]),
        decreases cs@.len() - i,
    {
        let c = cs[i];
        if !(is_alphanumeric(c) || c == '_' || c == '-') {
            return false;
        }
        i += 1;
    }
    true
}

/// The host and user are checked before anything runs, host first.
pub fn check_ssh_target(host: &str, user: &str) -> (r: Result<(), String>)
    ensures
        match r {
            Ok(()) => (forall|i: int| 0 <= i < host@.len() ==> host_char(#[trigger] host@[i]))
                && (forall|i: int| 0 <= i < user@.len() ==> user_char(#[trigger] user@[i])),
            Err(e) => if !(forall|i: int| 0 <= i < host@.len() ==> host_char(#[trigger] host@[i])) {
                e@ == "Invalid SSH host \u{2014} only alphanumeric, dots, hyphens, underscores allowed"@
            } else {
                !(forall|i: int| 0 <= i < user@.len() ==> user_char(#[trigger] user@[i]))
                    && e@ == "Invalid SSH user \u{2014} only alphanumeric, underscores, hyphens allowed"@
            },
        },
{
    if !valid_ssh_host(host) {
        return Err(owned("Invalid SSH host \u{2014} only alphanumeric, dots, hyphens, underscores allowed"));
    }
    if !valid_ssh_user(user) {
        return Err(owned("Invalid SSH user \u{2014} only alphanumeric, underscores, hyphens allowed"));
    }
    Ok(())
}

/// A form field, trimmed, falling back to the configured value and then to a
/// default.
pub fn form_or_default(form: Option<&str>, configured: Option<&str>, fallback: &str) -> (r: String)
    ensures
        r@ == match form {
            Some(f) => trim_seq(f@),
            None => match configured {
                Some(c) => c@,
                None => fallback@,
            },
        },
{
    match form {
        Some(f) => trim(f),
        None => match configured {
            Some(c) => owned(c),
            None => owned(fallback),
        },
    }
}

// ----- the private key -----

/// Without a leading byte-order mark.
pub open spec fn strip_bom(s: Seq<char>) -> Seq<char> {
    if s.len() > 0 && s[0] == '\u{feff}' { s.drop_first() } else { s }
}

/// Every `\r\n` and every other `\r` becomes `\n`.
pub open spec fn unix_newlines(s: Seq<char>) -> Seq<char>
    decreases s.len(),
{
    if s.len() == 0 {
        seq![]
    } else if s[0] == '\r' && s.len() > 1 && s[1] == '\n' {
        seq!['\n'] + unix_newlines(s.skip(2))
    } else if s[0] == '\r' {
        seq!['\n'] + unix_newlines(s.skip(1))
    } else {
        seq![s[0]] + unix_newlines(s.skip(1))
    }
}

/// With a final `\n`.
pub open spec fn with_final_newline(s: Seq<char>) -> Seq<char> {
    if s.len() > 0 && s.last() == '\n' { s } else { s.push('\n') }
}

/// A pasted private key made acceptable to OpenSSH: trimmed, without a BOM,
/// Unix line ends, ending in a newline.
pub open spec fn normalized_key(pasted: Seq<char>) -> Seq<char> {
    with_final_newline(unix_newlines(strip_bom(trim_seq(pasted))))
}

pub fn normalize_private_key(pasted: &str) -> (r: String)
    ensures
        r@ == normalized_key(pasted@),
{
    let t = trim(pasted);
    let cs = chars_of(t.as_str());
    let n = cs.len();
    let start: usize = if n > 0 && cs[0] == '\u{feff}' { 1 } else { 0 };
    let ghost s0 = strip_bom(t@);
    assert(cs@.skip(start as int) =~= s0);
    let mut out = String::new();
    let mut i: usize = start;
    while i < n
        invariant
            n == cs@.len(),
            start <= i <= n,
            s0 == cs@.skip(start as int),
            unix_newlines(s0) == out@ + unix_newlines(cs@.skip(i as int)),
        decreases n - i,
    {
        let ghost rest = cs@.skip(i as int);
        let c = cs[i];
        if c == '\r' && i + 1 < n && cs[i + 1] == '\n' {
            push_char(&mut out, '\n');
            i += 2;
            assert(rest.skip(2) =~= cs@.skip(i as int));
        } else if c == '\r' {
            push_char(&mut out, '\n');
            i += 1;
            assert(rest.skip(1) =~= cs@.skip(i as int));
        } else {
            push_char(&mut out, c);
            i += 1;
            assert(rest.skip(1) =~= cs@.skip(i as int));
        }
    }
    assert(cs@.skip(i as int) =~= Seq::<char>::empty());
    assert(out@ =~= unix_newlines(s0));
    let ol = out.as_str().is_empty();
    let ends_nl = if ol {
        false
    } else {
        let oc = chars_of(out.as_str());
        oc[oc.len() - 1] == '\n'
    };
    if !ends_nl {
        push_char(&mut out, '\n');
    }
    out
}

/// A public key was pasted: a single line starting with `ssh-rsa ` or
/// `ssh-ed25519 ` (the normalized text ends in a newline, so its lines are its
/// newlines).
pub open spec fn looks_like_public_key(normalized: Seq<char>) -> bool {
    (starts_with_seq(normalized, "ssh-rsa "@) || starts_with_seq(normalized, "ssh-ed25519 "@))
        && count_char(normalized, '\n') <= 1
}

pub fn is_public_key_paste(normalized: &str) -> (r: bool)
    ensures
        r == looks_like_public_key(normalized@),
{
    let cs = chars_of(normalized);
    let a = chars_of("ssh-rsa ");
    let b = chars_of("ssh-ed25519 ");
    (chars_starts_with(&cs, &a) || chars_starts_with(&cs, &b)) && count_chars(&cs, '\n') <= 1
}

/// Where the private key comes from.
#[derive(Debug)]
pub enum KeySource {
    /// The pasted key, normalized, to be written to a private temporary file.
    Pasted(String),
    /// A key file path from the configuration (or the default), before `~`
    /// is expanded.
    Configured(String),
    /// No key: password authentication.
    NoKey,
}

/// How the SSH connection authenticates.
#[derive(Debug)]
pub struct SshAuthPlan {
    pub key: KeySource,
    pub password: Option<String>,
}

pub open spec fn nonblank(o: Option<Seq<char>>) -> bool {
    o is Some && trim_seq(o->0).len() > 0
}

pub open spec fn key_view(k: KeySource) -> (int, Seq<char>) {
    match k {
        KeySource::Pasted(s) => (0, s@),
        KeySource::Configured(s) => (1, s@),
        KeySource::NoKey => (2, Seq::<char>::empty()),
    }
}

/// The SSH authentication of an import: a pasted key or a password (or both)
/// is needed unless a key is configured. A pasted public key is refused. The
/// configured key (default `~/.ssh/id_ed25519`) is used only when neither a
/// key was pasted nor a password given.
pub open spec fn ssh_plan_spec(pasted: Option<Seq<char>>, password: Option<Seq<char>>, config_key: Option<Seq<char>>)
    -> Result<((int, Seq<char>), Option<Seq<char>>), Seq<char>>
{
    let pw = if nonblank(password) { Some(trim_seq(password->0)) } else { None };
    if !nonblank(pasted) && pw is None && !nonblank(config_key) {
        Err("Provide either an SSH private key or an SSH password (or both)."@)
    } else if nonblank(pasted) && looks_like_public_key(normalized_key(pasted->0)) {
        Err("You pasted a public key (the one-line .pub file). SSH login requires your private key: open the file without .pub (e.g. ~/.ssh/id_ed25519) and paste its full contents (starts with -----BEGIN ... PRIVATE KEY-----)."@)
    } else if nonblank(pasted) {
        Ok(((0, normalized_key(pasted->0)), pw))
    } else if pw is None {
        Ok(((1, match config_key { Some(k) => k, None => "~/.ssh/id_ed25519"@ }), pw))
    } else {
        Ok(((2, Seq::<char>::empty()), pw))
    }
}

pub fn plan_ssh_auth(pasted: Option<&str>, password: Option<&str>, config_key: Option<&str>) -> (r: Result<SshAuthPlan, String>)
    ensures
        match r {
            Ok(p) => ssh_plan_spec(opt_str(pasted), opt_str(password), opt_str(config_key))
                == Ok::<((int, Seq<char>), Option<Seq<char>>), Seq<char>>((key_view(p.key), view_string(p.password))),
            Err(e) => ssh_plan_spec(opt_str(pasted), opt_str(password), opt_str(config_key))
                == Err::<((int, Seq<char>), Option<Seq<char>>), Seq<char>>(e@),
        },
{
    let pw: Option<String> = match password {
        Some(p) => {
            let t = trim(p);
            if t.as_str().is_empty() { None } else { Some(t) }
        },
        None => None,
    };
    let has_pasted = match pasted {
        Some(k) => !trim(k).as_str().is_empty(),
        None => false,
    };
    let has_config = match config_key {
        Some(k) => !trim(k).as_str().is_empty(),
        None => false,
    };
    if !has_pasted && pw.is_none() && !has_config {
        return Err(owned("Provide either an SSH private key or an SSH password (or both)."));
    }
    if has_pasted {
        let normalized = match pasted {
            Some(k) => normalize_private_key(k),
            None => String::new(),
        };
        if is_public_key_paste(normalized.as_str()) {
            return Err(owned("You pasted a public key (the one-line .pub file). SSH login requires your private key: open the file without .pub (e.g. ~/.ssh/id_ed25519) and paste its full contents (starts with -----BEGIN ... PRIVATE KEY-----)."));
        }
        return Ok(SshAuthPlan { key: KeySource::Pasted(normalized), password: pw });
    }
    if pw.is_none() {
        let path = match config_key {
            Some(k) => owned(k),
            None => owned("~/.ssh/id_ed25519"),
        };
        return Ok(SshAuthPlan { key: KeySource::Configured(path), password: pw });
    }
    Ok(SshAuthPlan { key: KeySource::NoKey, password: pw })
}

// ----- the remote command -----

/// The profile directories searched and the command asked for its version,
/// for `firefox`, `librewolf`, or anything else (both browsers).
pub open spec fn script_parts_spec(browser: Seq<char>) -> (Seq<char>, Seq<char>) {
    if browser == "firefox"@ {
        ("~/.mozilla/firefox ~/.var/app/org.mozilla.firefox/.mozilla/firefox"@, "firefox"@)
    } else if browser == "librewolf"@ {
        ("~/.librewolf ~/.config/librewolf/librewolf ~/.var/app/io.gitlab.librewolf-community/.librewolf"@, "librewolf"@)
    } else {
        ("~/.librewolf ~/.config/librewolf/librewolf ~/.mozilla/firefox ~/.var/app/io.gitlab.librewolf-community/.librewolf ~/.var/app/org.mozilla.firefox/.mozilla/firefox"@,
        "librewolf 2>/dev/null || firefox"@)
    }
}

pub fn browser_script_parts(browser: &str) -> (r: (&'static str, &'static str))
    ensures
        (r.0@, r.1@) == script_parts_spec(browser@),
{
    if str_eq(browser, "firefox") {
        ("~/.mozilla/firefox ~/.var/app/org.mozilla.firefox/.mozilla/firefox", "firefox")
    } else if str_eq(browser, "librewolf") {
        ("~/.librewolf ~/.config/librewolf/librewolf ~/.var/app/io.gitlab.librewolf-community/.librewolf", "librewolf")
    } else {
        ("~/.librewolf ~/.config/librewolf/librewolf ~/.mozilla/firefox ~/.var/app/io.gitlab.librewolf-community/.librewolf ~/.var/app/org.mozilla.firefox/.mozilla/firefox",
        "librewolf 2>/dev/null || firefox")
    }
}

/// The shell script run on the remote machine: it copies the newest
/// `cookies.sqlite` under the profile directories, prints the `.reddit.com`
/// `token_v2` cookie as `TOKEN=`, the browser's major.minor version as
/// `VERSION=` and the machine architecture as `ARCH=`, or an `ERROR=` line.
pub open spec fn remote_script_spec(dirs: Seq<char>, version_bin: Seq<char>) -> Seq<char> {
    r#"set -e
DB=$(find "#@ + dirs + r#" -name 'cookies.sqlite' 2>/dev/null | head -1)
[ -z "$DB" ] && echo "ERROR=no cookies.sqlite found in "#@ + dirs + r#"" && exit 1
CP=$(mktemp) && cp "$DB" "$CP" && trap "rm -f $CP" EXIT
TOKEN=$(sqlite3 "$CP" 'SELECT value FROM moz_cookies WHERE host='\''.reddit.com'\'' AND name='\''token_v2'\'' ORDER BY lastAccessed DESC LIMIT 1' 2>/dev/null)
[ -z "$TOKEN" ] && echo "ERROR=no token_v2 cookie found for .reddit.com" && exit 1
echo "TOKEN=$TOKEN"
VERSION=$("#@ + version_bin + r#" --version 2>/dev/null | grep -oE '[0-9]+\.[0-9]+' | head -1)
ARCH=$(uname -m)
echo "VERSION=$VERSION"
echo "ARCH=$ARCH""#@
}

pub fn remote_script(browser: &str) -> (r: String)
    ensures
        r@ == remote_script_spec(script_parts_spec(browser@).0, script_parts_spec(browser@).1),
{
    let (dirs, bin) = browser_script_parts(browser);
    let mut s = owned(r#"set -e
DB=$(find "#);
    push_str(&mut s, dirs);
    push_str(&mut s, r#" -name 'cookies.sqlite' 2>/dev/null | head -1)
[ -z "$DB" ] && echo "ERROR=no cookies.sqlite found in "#);
    push_str(&mut s, dirs);
    push_str(&mut s, r#"" && exit 1
CP=$(mktemp) && cp "$DB" "$CP" && trap "rm -f $CP" EXIT
TOKEN=$(sqlite3 "$CP" 'SELECT value FROM moz_cookies WHERE host='\''.reddit.com'\'' AND name='\''token_v2'\'' ORDER BY lastAccessed DESC LIMIT 1' 2>/dev/null)
[ -z "$TOKEN" ] && echo "ERROR=no token_v2 cookie found for .reddit.com" && exit 1
echo "TOKEN=$TOKEN"
VERSION=$("#);
    push_str(&mut s, bin);
    push_str(&mut s, r#" --version 2>/dev/null | grep -oE '[0-9]+\.[0-9]+' | head -1)
ARCH=$(uname -m)
echo "VERSION=$VERSION"
echo "ARCH=$ARCH""#);
    s
}

/// A process to run: program, arguments, and the overall deadline in seconds.
#[derive(Debug)]
pub struct SshInvocation {
    pub program: String,
    pub args: Vec<String>,
    pub deadline_secs: u64,
}

pub open spec fn strict_option(strict: bool) -> Seq<char> {
    if strict { "StrictHostKeyChecking=yes"@ } else { "StrictHostKeyChecking=accept-new"@ }
}

/// The argument list of the SSH run: with a key and a password, `sshpass`
/// supplies the key's passphrase; with a key alone, plain `ssh` in batch mode;
/// with a password alone, `sshpass` supplies it.
pub open spec fn ssh_args_spec(
    key: Option<Seq<char>>,
    password: Option<Seq<char>>,
    host: Seq<char>,
    user: Seq<char>,
    timeout: nat,
    strict: bool,
    script: Seq<char>,
) -> (Seq<char>, Seq<Seq<char>>) {
    let common = seq!["-o"@, "ConnectTimeout="@ + dec(timeout), "-o"@, strict_option(strict), user + "@"@ + host, script];
    match (key, password) {
        (Some(k), Some(p)) => ("sshpass"@, seq!["-p"@, p, "ssh"@, "-i"@, k, "-o"@, "BatchMode=no"@] + common),
        (Some(k), None) => ("ssh"@, seq!["-i"@, k, "-o"@, "BatchMode=yes"@] + common),
        (None, Some(p)) => ("sshpass"@, seq!["-p"@, p, "ssh"@, "-o"@, "BatchMode=yes"@] + common),
        (None, None) => ("ssh"@, seq!["-o"@, "BatchMode=yes"@] + common),
    }
}

pub open spec fn string_views(v: Seq<String>) -> Seq<Seq<char>> {
    v.map_values(|s: String| s@)
}

fn push_owned(v: &mut Vec<String>, s: &str)
    ensures
        string_views(final(v)@) == string_views(old(v)@).push(s@),
{
    v.push(owned(s));
    assert(string_views(final(v)@) =~= string_views(old(v)@).push(s@));
}

/// The SSH (or `sshpass`) invocation for a key path and/or password; the
/// deadline is the connect timeout plus ten seconds.
pub fn ssh_invocation(
    key_path: Option<&str>,
    password: Option<&str>,
    host: &str,
    user: &str,
    timeout: u64,
    strict: bool,
    script: &str,
) -> (r: SshInvocation)
    requires
        timeout + 10 <= u64::MAX,
    ensures
        (r.program@, string_views(r.args@)) == ssh_args_spec(opt_str(key_path), opt_str(password), host@, user@, timeout as nat, strict, script@),
        r.deadline_secs == timeout + 10,
{
    let mut args: Vec<String> = Vec::new();
    let program = match (key_path, password) {
        (Some(k), Some(p)) => {
            push_owned(&mut args, "-p");
            push_owned(&mut args, p);
            push_owned(&mut args, "ssh");
            push_owned(&mut args, "-i");
            push_owned(&mut args, k);
            push_owned(&mut args, "-o");
            push_owned(&mut args, "BatchMode=no");
            owned("sshpass")
        },
        (Some(k), None) => {
            push_owned(&mut args, "-i");
            push_owned(&mut args, k);
            push_owned(&mut args, "-o");
            push_owned(&mut args, "BatchMode=yes");
            owned("ssh")
        },
        (None, Some(p)) => {
            push_owned(&mut args, "-p");
            push_owned(&mut args, p);
            push_owned(&mut args, "ssh");
            push_owned(&mut args, "-o");
            push_owned(&mut args, "BatchMode=yes");
            owned("sshpass")
        },
        (None, None) => {
            push_owned(&mut args, "-o");
            push_owned(&mut args, "BatchMode=yes");
            owned("ssh")
        },
    };
    let ghost head = string_views(args@);
    push_owned(&mut args, "-o");
    let mut ct = owned("ConnectTimeout=");
    push_str(&mut ct, u64_to_string(timeout).as_str());
    push_owned(&mut args, ct.as_str());
    push_owned(&mut args, "-o");
    push_owned(&mut args, if strict { "StrictHostKeyChecking=yes" } else { "StrictHostKeyChecking=accept-new" });
    let mut target = owned(user);
    push_str(&mut target, "@");
    push_str(&mut target, host);
    push_owned(&mut args, target.as_str());
    push_owned(&mut args, script);
    let ghost common = seq!["-o"@, "ConnectTimeout="@ + dec(timeout as nat), "-o"@, strict_option(strict), user@ + "@"@ + host@, script@];
    assert(string_views(args@) =~= head + common);
    SshInvocation { program, args, deadline_secs: timeout + 10 }
}

// ----- reading the output -----

/// The message of the first `ERROR=` line.
pub open spec fn first_error_line(lines: Seq<Seq<char>>) -> Option<Seq<char>>
    decreases lines.len(),
{
    if lines.len() == 0 {
        None
    } else if starts_with_seq(lines[0], "ERROR="@) {
        Some(lines[0].skip(6))
    } else {
        first_error_line(lines.drop_first())
    }
}

/// The last `TOKEN=`, `VERSION=` and `ARCH=` values before the first
/// `ERROR=` line, or that line's message.
pub open spec fn scan_output(lines: Seq<Seq<char>>, tok: Seq<char>, ver: Seq<char>, arch: Seq<char>)
    -> Result<(Seq<char>, Seq<char>, Seq<char>), Seq<char>>
    decreases lines.len(),
{
    if lines.len() == 0 {
        Ok((tok, ver, arch))
    } else {
        let l = lines[0];
        let rest = lines.drop_first();
        if starts_with_seq(l, "TOKEN="@) {
            scan_output(rest, l.skip(6), ver, arch)
        } else if starts_with_seq(l, "VERSION="@) {
            scan_output(rest, tok, l.skip(8), arch)
        } else if starts_with_seq(l, "ARCH="@) {
            scan_output(rest, tok, ver, l.skip(5))
        } else if starts_with_seq(l, "ERROR="@) {
            Err(l.skip(6))
        } else {
            scan_output(rest, tok, ver, arch)
        }
    }
}

/// The User-Agent architecture for `uname -m`.
pub open spec fn ua_arch_spec(arch: Seq<char>) -> Seq<char> {
    if arch == "amd64"@ || arch == "x86_64"@ {
        "x86_64"@
    } else if arch == "aarch64"@ || arch == "arm64"@ {
        "aarch64"@
    } else if arch == "i686"@ || arch == "i386"@ {
        "i686"@
    } else {
        arch
    }
}

/// The part of a version before its first dot.
pub open spec fn major_version(v: Seq<char>) -> Seq<char> {
    if has_char(v, '.') { v.take(first_pos(v, '.')) } else { v }
}

/// A Firefox-on-Linux User-Agent for a browser version and machine
/// architecture; empty when either is unknown.
pub open spec fn firefox_ua_spec(version: Seq<char>, arch: Seq<char>) -> Seq<char> {
    if version.len() > 0 && arch.len() > 0 {
        "Mozilla/5.0 (X11; Linux "@ + ua_arch_spec(arch) + "; rv:"@ + version + ") Gecko/20100101 Firefox/"@
            + major_version(version) + ".0"@
    } else {
        Seq::<char>::empty()
    }
}

pub fn ua_arch(arch: &str) -> (r: &str)
    ensures
        r@ == ua_arch_spec(arch@),
{
    if str_eq(arch, "amd64") || str_eq(arch, "x86_64") {
        "x86_64"
    } else if str_eq(arch, "aarch64") || str_eq(arch, "arm64") {
        "aarch64"
    } else if str_eq(arch, "i686") || str_eq(arch, "i386") {
        "i686"
    } else {
        arch
    }
}

pub fn firefox_user_agent(version: &str, arch: &str) -> (r: String)
    ensures
        r@ == firefox_ua_spec(version@, arch@),
{
    if version.is_empty() || arch.is_empty() {
        return String::new();
    }
    let vs = chars_of(version);
    let major = match find_char(&vs, '.') {
        Some(p) => {
            let m = sub_chars(&vs, 0, p);
            assert(m@ =~= vs@.take(p as int));
            string_of(&m)
        },
        None => owned(version),
    };
    let mut ua = owned("Mozilla/5.0 (X11; Linux ");
    push_str(&mut ua, ua_arch(arch));
    push_str(&mut ua, "; rv:");
    push_str(&mut ua, version);
    push_str(&mut ua, ") Gecko/20100101 Firefox/");
    push_str(&mut ua, major.as_str());
    push_str(&mut ua, ".0");
    ua
}

/// What an SSH run that exited unsuccessfully reports: the script's `ERROR=`
/// message, or the exit code (`-1` when killed by a signal) with any stderr.
pub open spec fn failure_spec(code: Option<i32>, stdout: Seq<char>, stderr: Seq<char>) -> Seq<char> {
    match first_error_line(lines_spec(stdout)) {
        Some(m) => m,
        None => "SSH command failed (exit "@ + dec_int(match code { Some(c) => c as int, None => -1 }) + ")"@
            + if stderr.len() == 0 { Seq::<char>::empty() } else { " \u{2014} "@ + stderr },
    }
}

/// The bearer token and User-Agent an SSH run yields, or why it failed.
pub open spec fn ssh_result_spec(success: bool, code: Option<i32>, stdout: Seq<char>, stderr: Seq<char>)
    -> Result<(Seq<char>, Seq<char>), Seq<char>>
{
    if !success {
        Err(failure_spec(code, stdout, stderr))
    } else {
        match scan_output(lines_spec(stdout), seq![], seq![], seq![]) {
            Err(m) => Err(m),
            Ok(t) => if t.0.len() == 0 {
                Err("No token found in SSH output"@)
            } else {
                Ok((
                    match browser_token_spec(t.0) {
                        Some(b) => b,
                        None => t.0,
                    },
                    firefox_ua_spec(t.1, t.2),
                ))
            },
        }
    }
}

fn first_error_of(lines: &Vec<Vec<char>>, Ghost(all): Ghost<Seq<Seq<char>>>) -> (r: Option<Vec<char>>)
    requires
        lines@.len() == all.len(),
        forall|k: int| 0 <= k < lines@.len() ==> #[trigger] lines@[k]@ == all[k],
    ensures
        match r {
            Some(m) => first_error_line(all) == Some(m@),
            None => first_error_line(all) is None,
        },
{
    let mut i: usize = 0;
    assert(all.skip(0) =~= all);
    while i < lines.len()
        invariant
            i <= lines@.len(),
            lines@.len() == all.len(),
            forall|k: int| 0 <= k < lines@.len() ==> #[trigger] lines@[k]@ == all[k],
            first_error_line(all) == first_error_line(all.skip(i as int)),
        decreases lines@.len() - i,
    {
        let ghost rest = all.skip(i as int);
        assert(rest[0] == lines@[i as int]@);
        assert(rest.drop_first() =~= all.skip(i + 1));
        match strip_prefix_chars(&lines[i], "ERROR=") {
            Some(m) => {
                proof {
                    reveal_strlit("ERROR=");
                }
                return Some(m);
            },
            None => {},
        }
        i += 1;
    }
    assert(all.skip(i as int) =~= Seq::<Seq<char>>::empty());
    None
}

fn view_of(v: &Vec<char>) -> (r: String)
    ensures
        r@ == v@,
{
    string_of(v)
}

/// Reads what the remote script printed.
pub fn parse_ssh_output(success: bool, code: Option<i32>, stdout: &str, stderr: &str) -> (r: Result<(String, String), String>)
    ensures
        match r {
            Ok(p) => ssh_result_spec(success, code, stdout@, stderr@) == Ok::<(Seq<char>, Seq<char>), Seq<char>>((p.0@, p.1@)),
            Err(e) => ssh_result_spec(success, code, stdout@, stderr@) == Err::<(Seq<char>, Seq<char>), Seq<char>>(e@),
        },
{
    let lines = split_lines(stdout);
    let ghost all = lines_spec(stdout@);
    if !success {
        match first_error_of(&lines, Ghost(all)) {
            Some(m) => {
                return Err(view_of(&m));
            },
            None => {},
        }
        let c: i64 = match code {
            Some(c) => c as i64,
            None => -1,
        };
        let mut msg = owned("SSH command failed (exit ");
        push_str(&mut msg, i64_to_string(c).as_str());
        push_str(&mut msg, ")");
        let ghost head = msg@;
        if !stderr.is_empty() {
            push_str(&mut msg, " \u{2014} ");
            push_str(&mut msg, stderr);
            assert(msg@ =~= head + (" \u{2014} "@ + stderr@));
        } else {
            assert(msg@ =~= head + Seq::<char>::empty());
        }
        return Err(msg);
    }
    let mut tok: Vec<char> = Vec::new();
    let mut ver: Vec<char> = Vec::new();
    let mut arch: Vec<char> = Vec::new();
    let mut i: usize = 0;
    proof {
        reveal_strlit("TOKEN=");
        reveal_strlit("VERSION=");
        reveal_strlit("ARCH=");
        reveal_strlit("ERROR=");
    }
    assert(all.skip(0) =~= all);
    while i < lines.len()
        invariant
            i <= lines@.len(),
            lines@.len() == all.len(),
            forall|k: int| 0 <= k < lines@.len() ==> #[trigger] lines@[k]@ == all[k],
            success,
            all == lines_spec(stdout@),
            scan_output(all, seq![], seq![], seq![]) == scan_output(all.skip(i as int), tok@, ver@, arch@),
        decreases lines@.len() - i,
    {
        proof {
            reveal_strlit("TOKEN=");
            reveal_strlit("VERSION=");
            reveal_strlit("ARCH=");
            reveal_strlit("ERROR=");
        }
        let ghost rest = all.skip(i as int);
        assert(rest[0] == lines@[i as int]@);
        assert(rest.drop_first() =~= all.skip(i + 1));
        let line = &lines[i];
        if let Some(v) = strip_prefix_chars(line, "TOKEN=") {
            tok = v;
        } else if let Some(v) = strip_prefix_chars(line, "VERSION=") {
            ver = v;
        } else if let Some(v) = strip_prefix_chars(line, "ARCH=") {
            arch = v;
        } else if let Some(m) = strip_prefix_chars(line, "ERROR=") {
            assert(!starts_with_seq(rest[0], "TOKEN="@) && !starts_with_seq(rest[0], "VERSION="@)
                && !starts_with_seq(rest[0], "ARCH="@) && starts_with_seq(rest[0], "ERROR="@));
            assert(m@ == rest[0].skip(6));
            assert(scan_output(rest, tok@, ver@, arch@) == Err::<(Seq<char>, Seq<char>, Seq<char>), Seq<char>>(m@));
            let e = view_of(&m);
            assert(ssh_result_spec(success, code, stdout@, stderr@) == Err::<(Seq<char>, Seq<char>), Seq<char>>(e@));
            return Err(e);
        }
        i += 1;
    }
    assert(all.skip(i as int) =~= Seq::<Seq<char>>::empty());
    if tok.len() == 0 {
        return Err(owned("No token found in SSH output"));
    }
    let token_raw = view_of(&tok);
    let bearer = match decode_browser_token(token_raw.as_str()) {
        Some(b) => b,
        None => token_raw,
    };
    let v = view_of(&ver);
    let a = view_of(&arch);
    let ua = firefox_user_agent(v.as_str(), a.as_str());
    Ok((bearer, ua))
}

/// The message shown when the SSH import failed; when the key could not be
/// loaded, it explains that a private key (and its passphrase) is needed.
pub open spec fn ssh_failure_spec(e: Seq<char>) -> Seq<char> {
    if contains_seq(e, "Load key"@) && (contains_seq(e, "libcrypto"@) || contains_seq(e, "Permission denied (publickey)"@)) {
        "SSH extraction failed: "@ + e + " \u{2014} Use your private key (starts with -----BEGIN ... PRIVATE KEY-----), not the public key. If the key is passphrase-protected, enter the passphrase in the password field."@
    } else {
        "SSH extraction failed: "@ + e
    }
}

pub fn ssh_failure_message(e: &str) -> (r: String)
    ensures
        r@ == ssh_failure_spec(e@),
{
    let mut m = owned("SSH extraction failed: ");
    push_str(&mut m, e);
    if str_contains(e, "Load key") && (str_contains(e, "libcrypto") || str_contains(e, "Permission denied (publickey)")) {
        push_str(&mut m, " \u{2014} Use your private key (starts with -----BEGIN ... PRIVATE KEY-----), not the public key. If the key is passphrase-protected, enter the passphrase in the password field.");
    }
    m
}


// ----- what an SSH run yields -----

proof fn lemma_scan_token(lines: Seq<Seq<char>>, tok: Seq<char>, ver: Seq<char>, arch: Seq<char>)
    ensures
        scan_output(lines, tok, ver, arch) matches Ok(t) ==> (t.0 == tok || exists|i: int|
            0 <= i < lines.len() && starts_with_seq(#[trigger] lines[i], "TOKEN="@) && t.0 == lines[i].skip(6)),
    decreases lines.len(),
{
    if lines.len() > 0 {
        let l = lines[0];
        let rest = lines.drop_first();
        assert(forall|i: int| 0 <= i < rest.len() ==> rest[i] == lines[i + 1]);
        if starts_with_seq(l, "TOKEN="@) {
            lemma_scan_token(rest, l.skip(6), ver, arch);
        } else if starts_with_seq(l, "VERSION="@) {
            lemma_scan_token(rest, tok, l.skip(8), arch);
        } else if starts_with_seq(l, "ARCH="@) {
            lemma_scan_token(rest, tok, ver, l.skip(5));
        } else if starts_with_seq(l, "ERROR="@) {
        } else {
            lemma_scan_token(rest, tok, ver, arch);
        }
        if let Ok(t) = scan_output(lines, tok, ver, arch) {
            if t.0 != tok {
                if starts_with_seq(l, "TOKEN="@) && t.0 == l.skip(6) {
                    assert(lines[0] == l);
                } else {
                    let j = choose|j: int| 0 <= j < rest.len() && starts_with_seq(#[trigger] rest[j], "TOKEN="@)
                        && t.0 == rest[j].skip(6);
                    assert(lines[j + 1] == rest[j]);
                }
            }
        }
    }
}

/// An SSH run that failed yields an error. One that succeeds yields, as its
/// bearer token, the bearer token inside the `token_v2` JWT of one of the
/// output's non-empty `TOKEN=` lines (what `decode_browser_token` gives for
/// that value), or the value itself when no token can be read out of it.
pub proof fn lemma_ssh_bearer_decoded(success: bool, code: Option<i32>, stdout: Seq<char>, stderr: Seq<char>)
    ensures
        !success ==> ssh_result_spec(success, code, stdout, stderr) is Err,
        ssh_result_spec(success, code, stdout, stderr) matches Ok(r) ==> exists|i: int|
            0 <= i < lines_spec(stdout).len() && starts_with_seq(#[trigger] lines_spec(stdout)[i], "TOKEN="@)
                && lines_spec(stdout)[i].skip(6).len() > 0
                && r.0 == match browser_token_spec(lines_spec(stdout)[i].skip(6)) {
                    Some(b) => b,
                    None => lines_spec(stdout)[i].skip(6),
                },
{
    lemma_scan_token(lines_spec(stdout), seq![], seq![], seq![]);
    if let Ok(r) = ssh_result_spec(success, code, stdout, stderr) {
        if let Ok(t) = scan_output(lines_spec(stdout), seq![], seq![], seq![]) {
            assert(t.0.len() > 0);
            assert(t.0 != Seq::<char>::empty());
            let i = choose|i: int| 0 <= i < lines_spec(stdout).len() && starts_with_seq(#[trigger] lines_spec(stdout)[i], "TOKEN="@)
                && t.0 == lines_spec(stdout)[i].skip(6);
            assert(lines_spec(stdout)[i].skip(6) == t.0);
        }
    }
}

} // verus!
