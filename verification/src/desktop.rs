//! Pure decisions of the desktop launcher.
use vstd::prelude::*;
use crate::text::{hex_digit, nibble_char, push_char};

verus! {

/// Lower-case hexadecimal rendering of a byte string: two digits per byte,
/// high nibble first.
pub open spec fn hex_of(bytes: Seq<u8>) -> Seq<char> {
    Seq::new(2 * bytes.len(), |i: int| if i % 2 == 0 { hex_digit((bytes[i / 2] / 16) as int) } else { hex_digit((bytes[i / 2] % 16) as int) })
}

/// Encodes bytes as lower-case hexadecimal.
pub fn hex_encode(bytes: &[u8]) -> (out: String)
    ensures
        out@ == hex_of(bytes@),
{
    let mut out = String::new();
    let mut i: usize = 0;
    while i < bytes.len()
        invariant
            i <= bytes@.len(),
            out@ =~= hex_of(bytes@.take(i as int)),
        decreases bytes@.len() - i,
    {
        let b = bytes[i];
        let hi = b >> 4;
        let lo = b & 0x0f;
        assert(hi == b / 16 && lo == b % 16) by (bit_vector)
            requires
                hi == b >> 4,
                lo == b & 0x0f,
        ;
        push_char(&mut out, nibble_char(hi));
        push_char(&mut out, nibble_char(lo));
        i += 1;
        assert(out@ =~= hex_of(bytes@.take(i as int)));
    }
    assert(bytes@.take(i as int) =~= bytes@);
    out
}

} // verus!

verus! {

/// The server program's file name: `redlib.exe` on Windows, `redlib`
/// elsewhere.
pub fn server_exe_name(windows: bool) -> (r: &'static str)
    ensures
        r@ == (if windows { "redlib.exe"@ } else { "redlib"@ }),
{
    if windows { "redlib.exe" } else { "redlib" }
}

/// The ports tried for the local server: `start`, `start + 1`, ... for
/// `attempts` tries, staying at 65535 once reached.
pub fn port_candidates(start: u16, attempts: u16) -> (r: Vec<u16>)
    ensures
        r@.len() == attempts,
        forall|i: int| 0 <= i < attempts ==> #[trigger] r@[i] == (if start + i > 65535 { 65535 } else { start + i }),
{
    let mut out: Vec<u16> = Vec::new();
    let mut off: u16 = 0;
    while off < attempts
        invariant
            off <= attempts,
            out@.len() == off,
            forall|i: int| 0 <= i < off ==> #[trigger] out@[i] == (if start + i > 65535 { 65535 } else { start + i }),
        decreases attempts - off,
    {
        out.push(start.saturating_add(off));
        off += 1;
    }
    out
}

/// The error when no port was free.
pub fn no_free_port_message(start: u16, attempts: u16) -> (r: String)
    ensures
        r@ == "No free local port found in range "@ + crate::text::dec(start as nat) + "-"@
            + crate::text::dec((if start + attempts > 65535 { 65535 } else { start + attempts }) as nat),
{
    let mut m = crate::text::owned("No free local port found in range ");
    crate::text::push_str(&mut m, crate::text::u64_to_string(start as u64).as_str());
    crate::text::push_str(&mut m, "-");
    crate::text::push_str(&mut m, crate::text::u64_to_string(start.saturating_add(attempts) as u64).as_str());
    m
}

/// A stored session secret is reused when, trimmed, it is at least 32 bytes.
pub fn usable_secret(stored: &str) -> (r: Option<String>)
    ensures
        crate::crypto::view_string(r) == if vstd::utf8::encode_utf8(crate::text::trim_seq(stored@)).len() >= 32 {
            Some(crate::text::trim_seq(stored@))
        } else {
            None
        },
{
    let t = crate::text::trim(stored);
    if t.as_str().as_bytes().len() >= 32 { Some(t) } else { None }
}

/// The arguments the launcher starts the server with.
pub fn server_args(port: u16) -> (r: Vec<String>)
    ensures
        crate::text::views(r@) == seq!["--address"@, "127.0.0.1"@, "--port"@, crate::text::dec(port as nat)],
{
    let mut v: Vec<String> = Vec::new();
    crate::text::push_string(&mut v, "--address");
    crate::text::push_string(&mut v, "127.0.0.1");
    crate::text::push_string(&mut v, "--port");
    crate::text::push_string(&mut v, crate::text::u64_to_string(port as u64).as_str());
    assert(crate::text::views(v@) =~= seq!["--address"@, "127.0.0.1"@, "--port"@, crate::text::dec(port as nat)]);
    v
}

/// The local address the launcher opens.
pub fn local_url(port: u16) -> (r: String)
    ensures
        r@ == "http://127.0.0.1:"@ + crate::text::dec(port as nat) + "/"@,
{
    let mut u = crate::text::owned("http://127.0.0.1:");
    crate::text::push_str(&mut u, crate::text::u64_to_string(port as u64).as_str());
    crate::text::push_str(&mut u, "/");
    u
}

/// The config file written beside a new desktop install.
pub fn desktop_config_contents() -> (r: &'static str)
    ensures
        r@ == "# redlib desktop launcher config\n# This file is read because the launcher starts the backend with cwd set here.\n\nREDLIB_SECURE_COOKIES = \"false\"\n"@,
{
    "# redlib desktop launcher config\n# This file is read because the launcher starts the backend with cwd set here.\n\nREDLIB_SECURE_COOKIES = \"false\"\n"
}

} // verus!
