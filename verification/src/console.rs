//! Rendering of the loader's diagnostic lines into byte buffers, and the
//! conversion of those bytes into the UCS-2 strings that a firmware text
//! console accepts.
use vstd::prelude::*;
use crate::status::{EfiStatus, EFI_BUFFER_TOO_SMALL};
use vstd::string::StringSliceAdditionalSpecFns;

verus! {

/// The lower-case hexadecimal digit for `d` (0 to 15).
pub open spec fn hex_digit(d: int) -> u8 {
    if d < 10 { (0x30 + d) as u8 } else { (0x61 + d - 10) as u8 }
}

/// The `n` lowest hexadecimal digits of `v`, most significant first.
pub open spec fn hex_digits(v: nat, n: nat) -> Seq<u8>
    decreases n,
{
    if n == 0 {
        Seq::empty()
    } else {
        hex_digits(v / 16, (n - 1) as nat).push(hex_digit((v % 16) as int))
    }
}

/// The decimal digits of `v`, most significant first, without leading zeros.
pub open spec fn dec_digits(v: nat) -> Seq<u8>
    decreases v,
{
    if v < 10 {
        seq![(0x30 + v) as u8]
    } else {
        dec_digits(v / 10).push((0x30 + v % 10) as u8)
    }
}

/// `0x`
pub open spec fn hex_mark() -> Seq<u8> {
    seq![0x30, 0x78]
}

/// `\r\n`
pub open spec fn crlf() -> Seq<u8> {
    seq![0x0d, 0x0a]
}

/// `: 0x`
pub open spec fn colon_hex_mark() -> Seq<u8> {
    seq![0x3a, 0x20, 0x30, 0x78]
}

/// A status line: `label`, `0x`, the sixteen hex digits of the status, `\r\n`.
pub open spec fn status_line(label: Seq<u8>, status: EfiStatus) -> Seq<u8> {
    label + hex_mark() + hex_digits(status.0 as nat, 16) + crlf()
}

/// A labelled status line: `label`, `suffix`, `: 0x`, sixteen hex digits, `\r\n`.
pub open spec fn prefixed_status_line(label: Seq<u8>, suffix: Seq<u8>, status: EfiStatus) -> Seq<u8> {
    label + suffix + colon_hex_mark() + hex_digits(status.0 as nat, 16) + crlf()
}

/// Appends `bytes` to `out`.
pub fn push_all(out: &mut Vec<u8>, bytes: &[u8])
    ensures
        final(out)@ == old(out)@ + bytes@,
{
    let mut i: usize = 0;
    while i < bytes.len()
        invariant
            i <= bytes@.len(),
            out@ == old(out)@ + bytes@.take(i as int),
        decreases bytes@.len() - i,
    {
        out.push(bytes[i]);
        i += 1;
        assert(bytes@.take(i as int) =~= bytes@.take(i - 1).push(bytes@[i - 1]));
    }
    assert(bytes@.take(i as int) =~= bytes@);
}

/// Appends the bytes of `s` to `out`.
pub fn write_ascii(out: &mut Vec<u8>, s: &str)
    ensures
        final(out)@ == old(out)@ + s.spec_bytes(),
{
    push_all(out, s.as_bytes());
}

fn push_hex_digits(out: &mut Vec<u8>, v: u64, n: u32)
    ensures
        final(out)@ == old(out)@ + hex_digits(v as nat, n as nat),
    decreases n,
{
    if n > 0 {
        push_hex_digits(out, v / 16, n - 1);
        let d = (v % 16) as u8;
        let c = if d < 10 { 0x30 + d } else { 0x61 + d - 10 };
        out.push(c);
    }
}

/// Appends the sixteen lower-case hexadecimal digits of `value`.
pub fn write_hex64(out: &mut Vec<u8>, value: u64)
    ensures
        final(out)@ == old(out)@ + hex_digits(value as nat, 16),
{
    push_hex_digits(out, value, 16);
}

/// Appends the decimal digits of `value`.
pub fn write_dec(out: &mut Vec<u8>, value: u64)
    ensures
        final(out)@ == old(out)@ + dec_digits(value as nat),
    decreases value,
{
    if value >= 10 {
        write_dec(out, value / 10);
    }
    out.push(0x30 + (value % 10) as u8);
}

/// Appends a status line for `status` under `label`.
pub fn write_status(out: &mut Vec<u8>, label: &str, status: EfiStatus)
    ensures
        final(out)@ == old(out)@ + status_line(label.spec_bytes(), status),
{
    write_ascii(out, label);
    out.push(0x30);
    out.push(0x78);
    write_hex64(out, status.0);
    out.push(0x0d);
    out.push(0x0a);
    assert(final(out)@ =~= old(out)@ + status_line(label.spec_bytes(), status));
}

/// Appends a status line for `status` under `label` followed by `suffix`.
pub fn write_prefixed_status(out: &mut Vec<u8>, label: &str, suffix: &str, status: EfiStatus)
    ensures
        final(out)@ == old(out)@ + prefixed_status_line(label.spec_bytes(), suffix.spec_bytes(), status),
{
    write_ascii(out, label);
    write_ascii(out, suffix);
    out.push(0x3a);
    out.push(0x20);
    out.push(0x30);
    out.push(0x78);
    write_hex64(out, status.0);
    out.push(0x0d);
    out.push(0x0a);
    assert(final(out)@ =~= old(out)@ + prefixed_status_line(label.spec_bytes(), suffix.spec_bytes(), status));
}

/// The hex list of the first `n` bytes of `bytes`: each as `0x` and sixteen
/// hex digits, separated by commas.
pub open spec fn hex_byte_list(bytes: Seq<u8>, n: nat) -> Seq<u8>
    decreases n,
{
    if n == 0 {
        Seq::empty()
    } else if n == 1 {
        hex_mark() + hex_digits(bytes[0] as nat, 16)
    } else {
        hex_byte_list(bytes, (n - 1) as nat) + seq![0x2c] + hex_mark() + hex_digits(bytes[n - 1] as nat, 16)
    }
}

/// Appends `label`, `suffix`, the first five bytes in hex and `\r\n`, when
/// at least five bytes (`len`) are there; appends nothing otherwise.
pub fn print_tcp4_first5(out: &mut Vec<u8>, label: &str, suffix: &str, bytes: &[u8], len: usize)
    requires
        len >= 5 ==> bytes@.len() >= 5,
    ensures
        len < 5 ==> final(out)@ == old(out)@,
        len >= 5 ==> final(out)@ == old(out)@ + label.spec_bytes() + suffix.spec_bytes()
            + hex_byte_list(bytes@, 5) + crlf(),
{
    if len < 5 {
        return;
    }
    write_ascii(out, label);
    write_ascii(out, suffix);
    let ghost start = out@;
    let mut i: usize = 0;
    while i < 5
        invariant
            bytes@.len() >= 5,
            i <= 5,
            out@ == start + hex_byte_list(bytes@, i as nat),
        decreases 5 - i,
    {
        if i > 0 {
            out.push(0x2c);
        }
        out.push(0x30);
        out.push(0x78);
        write_hex64(out, bytes[i] as u64);
        i += 1;
        assert(out@ =~= start + hex_byte_list(bytes@, i as nat));
    }
    out.push(0x0d);
    out.push(0x0a);
    assert(final(out)@ =~= old(out)@ + label.spec_bytes() + suffix.spec_bytes() + hex_byte_list(bytes@, 5) + crlf());
}

/// How one byte is shown in an ASCII preview: carriage return and line feed
/// as `\r` and `\n`, printable ASCII as itself, anything else as `.`.
pub open spec fn ascii_preview_byte(b: u8) -> Seq<u8> {
    if b == 0x0d {
        seq![0x5c, 0x72]
    } else if b == 0x0a {
        seq![0x5c, 0x6e]
    } else if 0x20 <= b < 0x7f {
        seq![b]
    } else {
        seq![0x2e]
    }
}

/// The ASCII preview of all of `bytes`.
pub open spec fn ascii_preview(bytes: Seq<u8>) -> Seq<u8>
    decreases bytes.len(),
{
    if bytes.len() == 0 {
        Seq::empty()
    } else {
        ascii_preview(bytes.drop_last()) + ascii_preview_byte(bytes.last())
    }
}

/// `_ascii_prefix: `
pub open spec fn ascii_prefix_tag() -> Seq<u8> {
    seq![0x5f, 0x61, 0x73, 0x63, 0x69, 0x69, 0x5f, 0x70, 0x72, 0x65, 0x66, 0x69, 0x78, 0x3a, 0x20]
}

/// The number of bytes that an ASCII preview shows at most.
pub const ASCII_PREVIEW_MAX: usize = 64;

/// Appends `label`, `_ascii_prefix: `, the preview of the first
/// `min(len, 64)` bytes, and `\r\n`.
pub fn print_ascii_prefix(out: &mut Vec<u8>, label: &str, bytes: &[u8], len: usize)
    requires
        (if len > 64 { 64 } else { len }) <= bytes@.len(),
    ensures
        final(out)@ == old(out)@ + label.spec_bytes() + ascii_prefix_tag()
            + ascii_preview(bytes@.take(if len > 64 { 64 } else { len as int })) + crlf(),
{
    let count = if len > ASCII_PREVIEW_MAX { ASCII_PREVIEW_MAX } else { len };
    write_ascii(out, label);
    let tag: [u8; 15] = [0x5f, 0x61, 0x73, 0x63, 0x69, 0x69, 0x5f, 0x70, 0x72, 0x65, 0x66, 0x69, 0x78, 0x3a, 0x20];
    assert(tag@ =~= ascii_prefix_tag());
    push_all(out, &tag);
    let ghost start = out@;
    let mut i: usize = 0;
    while i < count
        invariant
            count <= bytes@.len(),
            i <= count,
            out@ == start + ascii_preview(bytes@.take(i as int)),
        decreases count - i,
    {
        let b = bytes[i];
        if b == 0x0d {
            out.push(0x5c);
            out.push(0x72);
        } else if b == 0x0a {
            out.push(0x5c);
            out.push(0x6e);
        } else if b >= 0x20 && b < 0x7f {
            out.push(b);
        } else {
            out.push(0x2e);
        }
        i += 1;
        assert(bytes@.take(i as int).drop_last() =~= bytes@.take(i - 1));
        assert(out@ =~= start + ascii_preview(bytes@.take(i as int)));
    }
    out.push(0x0d);
    out.push(0x0a);
    assert(final(out)@ =~= old(out)@ + label.spec_bytes() + ascii_prefix_tag()
        + ascii_preview(bytes@.take(count as int)) + crlf());
}

/// The widest string, terminator included, passed to the console at once.
pub const CONSOLE_CHUNK_UNITS: usize = 256;

/// The console chunk of `s` that starts at `pos`: up to 255 bytes widened to
/// UCS-2 code units, then a terminating zero.
pub open spec fn spec_console_chunk(s: Seq<u8>, pos: int) -> Seq<u16> {
    let n = if s.len() - pos < 255 { s.len() - pos } else { 255 };
    Seq::new(n as nat, |i: int| s[pos + i] as u16).push(0u16)
}

/// The next string for the firmware text console: the bytes of `s` from
/// `pos`, at most 255 of them, widened and zero-terminated. The caller moves
/// `pos` on by the returned length minus one.
pub fn console_chunk(s: &[u8], pos: usize) -> (r: Vec<u16>)
    requires
        pos < s@.len(),
    ensures
        r@ == spec_console_chunk(s@, pos as int),
        r@.len() == (if s@.len() - pos < 255 { s@.len() - pos } else { 255 }) + 1,
        r@.last() == 0,
        forall|i: int| 0 <= i < r@.len() - 1 ==> r@[i] == s@[pos + i] as u16,
{
    let mut buf: Vec<u16> = Vec::new();
    let mut n: usize = 0;
    while n < s.len() - pos && n + 1 < CONSOLE_CHUNK_UNITS
        invariant
            pos < s@.len(),
            pos + n <= s@.len(),
            n <= 255,
            buf@ == Seq::new(n as nat, |i: int| s@[pos + i] as u16),
        decreases s@.len() - pos - n,
    {
        buf.push(s[pos + n] as u16);
        n += 1;
        assert(buf@ =~= Seq::new(n as nat, |i: int| s@[pos + i] as u16));
    }
    buf.push(0u16);
    assert(buf@ =~= spec_console_chunk(s@, pos as int));
    buf
}

/// Writes `url` widened to UCS-2 and zero-terminated into `out`.
pub fn write_utf16_url(url: &[u8], out: &mut [u16]) -> (r: Result<(), EfiStatus>)
    ensures
        url@.len() + 1 > old(out)@.len() ==> r == Err::<(), EfiStatus>(EfiStatus(EFI_BUFFER_TOO_SMALL))
            && final(out)@ == old(out)@,
        url@.len() + 1 <= old(out)@.len() ==> r is Ok
            && final(out)@ == Seq::new(url@.len(), |i: int| url@[i] as u16).push(0u16)
                + old(out)@.skip(url@.len() + 1int),
{
    if url.len() >= out.len() {
        return Err(EfiStatus(EFI_BUFFER_TOO_SMALL));
    }
    let mut i: usize = 0;
    while i < url.len()
        invariant
            url@.len() < out@.len(),
            out@.len() == old(out)@.len(),
            i <= url@.len(),
            forall|j: int| 0 <= j < i ==> out@[j] == url@[j] as u16,
            forall|j: int| i <= j < out@.len() ==> out@[j] == old(out)@[j],
        decreases url@.len() - i,
    {
        out[i] = url[i] as u16;
        i += 1;
    }
    out[i] = 0;
    assert(out@ =~= Seq::new(url@.len(), |i: int| url@[i] as u16).push(0u16) + old(out)@.skip(url@.len() + 1int));
    Ok(())
}

/// A console chunk of `s` from `pos` holds the next bytes of `s` from
/// `pos` on, widened one by one, as many as remain up to 255, and then a
/// terminating zero.
pub proof fn law_console_chunk_continues_at_pos(s: Seq<u8>, pos: int)
    requires
        0 <= pos < s.len(),
    ensures
        spec_console_chunk(s, pos).len() == (if s.len() - pos < 255 { s.len() - pos } else { 255 }) + 1,
        spec_console_chunk(s, pos).last() == 0,
        forall|i: int| 0 <= i < spec_console_chunk(s, pos).len() - 1 ==> spec_console_chunk(s, pos)[i] == s[pos
            + i] as u16,
{
}

} // verus!
