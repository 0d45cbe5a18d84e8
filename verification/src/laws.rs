//! Properties that span several parts of the library: numbers the console
//! writes read back through the manifest parser, and what the boot server
//! sends is what the loader's HTTP reading finds.
use vstd::prelude::*;
use crate::console::{dec_digits, hex_digit, hex_digits, hex_mark};
use crate::manifest::{
    spec_parse_u64, u64_text_fits, scan_number, scan_peak, hex_digit_value, number_digits, number_radix,
    has_hex_prefix,
};
use crate::http_wire::{
    header_end_at, spec_http_body_offset, spec_http_status_offset, spec_status_is_200, status_tag_at,
    lemma_body_offset_is, get_request, get_prefix, version_host_fields, header_block_end,
};
use crate::kernel_stream::{http_body, KernelStream};
use crate::manifest_fetch::manifest_body;
use crate::status::{EfiStatus, EFI_SUCCESS};
use crate::boot_server::{
    response_bytes, http11_prefix, status_200, content_type_field, content_length_field, connection_close_end,
};

verus! {

/// The value of a sequence of digits of `radix`, most significant first.
pub open spec fn digits_value(b: Seq<u8>, radix: int) -> int
    decreases b.len(),
{
    if b.len() == 0 {
        0
    } else {
        digits_value(b.drop_last(), radix) * radix + hex_digit_value(b.last())
    }
}

/// Every byte of `b` is a digit below `radix`.
pub open spec fn all_digits(b: Seq<u8>, radix: int) -> bool {
    forall|k: int| 0 <= k < b.len() ==> 0 <= #[trigger] hex_digit_value(b[k]) < radix
}

proof fn lemma_scan_digits(b: Seq<u8>, radix: int, i: int)
    requires
        radix >= 2,
        all_digits(b, radix),
        0 <= i <= b.len(),
    ensures
        scan_number(b, radix, i, digits_value(b.take(i), radix), i > 0) == if b.len() > 0 {
            Ok::<int, ()>(digits_value(b, radix))
        } else {
            Err::<int, ()>(())
        },
        scan_peak(b, radix, i, digits_value(b.take(i), radix)) == digits_value(b, radix),
    decreases b.len() - i,
{
    if i == b.len() {
        assert(b.take(i) =~= b);
    } else {
        assert(b.take(i + 1).drop_last() =~= b.take(i));
        assert(b.take(i + 1).last() == b[i]);
        assert(0 <= hex_digit_value(b[i]) < radix);
        lemma_scan_digits(b, radix, i + 1);
    }
}

proof fn lemma_dec_digits(v: nat)
    ensures
        dec_digits(v).len() > 0,
        all_digits(dec_digits(v), 10),
        digits_value(dec_digits(v), 10) == v,
        forall|k: int| 0 <= k < dec_digits(v).len() ==> 0x30 <= #[trigger] dec_digits(v)[k] <= 0x39,
    decreases v,
{
    if v >= 10 {
        lemma_dec_digits(v / 10);
        let d = dec_digits(v);
        assert(d.drop_last() =~= dec_digits(v / 10));
        assert(hex_digit_value(d.last()) == v % 10);
        assert((v / 10) * 10 + v % 10 == v);
        assert(digits_value(d, 10) == digits_value(d.drop_last(), 10) * 10 + hex_digit_value(d.last()));
        assert forall|k: int| 0 <= k < d.len() implies 0 <= #[trigger] hex_digit_value(d[k]) < 10 by {
            if k < d.len() - 1 {
                assert(d[k] == dec_digits(v / 10)[k]);
            }
        }
    } else {
        let d = dec_digits(v);
        assert(d.drop_last() =~= Seq::<u8>::empty());
        assert(hex_digit_value(d.last()) == v);
        assert(digits_value(d.drop_last(), 10) == 0);
        assert(digits_value(d, 10) == digits_value(d.drop_last(), 10) * 10 + hex_digit_value(d.last()));
    }
}

/// The largest value `n` hexadecimal digits can hold, plus one.
pub open spec fn pow16(n: nat) -> nat
    decreases n,
{
    if n == 0 { 1 } else { 16 * pow16((n - 1) as nat) }
}

proof fn lemma_hex_digits(v: nat, n: nat)
    requires
        v < pow16(n),
    ensures
        hex_digits(v, n).len() == n,
        all_digits(hex_digits(v, n), 16),
        digits_value(hex_digits(v, n), 16) == v,
    decreases n,
{
    if n > 0 {
        assert(v / 16 < pow16((n - 1) as nat)) by (nonlinear_arith)
            requires v < 16 * pow16((n - 1) as nat);
        lemma_hex_digits(v / 16, (n - 1) as nat);
        let h = hex_digits(v, n);
        assert(h.drop_last() =~= hex_digits(v / 16, (n - 1) as nat));
        let d = (v % 16) as int;
        assert(hex_digit_value(hex_digit(d)) == d);
        assert forall|k: int| 0 <= k < h.len() implies 0 <= #[trigger] hex_digit_value(h[k]) < 16 by {
            if k < h.len() - 1 {
                assert(h[k] == hex_digits(v / 16, (n - 1) as nat)[k]);
            }
        }
    } else {
        assert(v == 0);
    }
}

/// A number the console writes in decimal (`write_dec`) reads back as the
/// same number through the manifest's number parser (`parse_u64`), which
/// can read it without overflow.
pub proof fn law_decimal_text_reads_back(v: u64)
    ensures
        spec_parse_u64(dec_digits(v as nat)) == Ok::<int, ()>(v as int),
        u64_text_fits(dec_digits(v as nat)),
{
    let d = dec_digits(v as nat);
    lemma_dec_digits(v as nat);
    if d.len() >= 2 {
        assert(0x30 <= d[1] <= 0x39);
    }
    assert(!has_hex_prefix(d));
    assert(number_digits(d) == d);
    assert(number_radix(d) == 10);
    assert(d.take(0) =~= Seq::<u8>::empty());
    lemma_scan_digits(d, 10, 0);
}

/// A number the console writes as `0x` and sixteen hexadecimal digits
/// (`write_hex64` after `0x`) reads back as the same number through the
/// manifest's number parser, which can read it without overflow.
pub proof fn law_hex_text_reads_back(v: u64)
    ensures
        spec_parse_u64(hex_mark() + hex_digits(v as nat, 16)) == Ok::<int, ()>(v as int),
        u64_text_fits(hex_mark() + hex_digits(v as nat, 16)),
{
    let h = hex_digits(v as nat, 16);
    let s = hex_mark() + h;
    assert(pow16(16) == 0x1_0000_0000_0000_0000) by {
        reveal_with_fuel(pow16, 17);
    }
    lemma_hex_digits(v as nat, 16);
    assert(has_hex_prefix(s));
    assert(number_digits(s) =~= h);
    assert(number_radix(s) == 16);
    assert(h.take(0) =~= Seq::<u8>::empty());
    lemma_scan_digits(h, 16, 0);
}

/// No byte of `s` is a carriage return.
pub open spec fn no_carriage_return(s: Seq<u8>) -> bool {
    forall|k: int| 0 <= k < s.len() ==> s[k] != 0x0d
}

/// A reply to HEAD is the reply to GET without the body: the GET reply is
/// the HEAD reply followed by the body, whose length both announce.
pub proof fn law_head_reply_is_get_reply_without_body(status: Seq<u8>, content_type: Seq<u8>, body: Seq<u8>)
    ensures
        response_bytes(status, content_type, body, true) == response_bytes(status, content_type, body, false)
            + body,
{
    assert(response_bytes(status, content_type, body, true) =~= response_bytes(status, content_type, body, false)
        + body);
}

/// The GET request the loader sends is a complete header block: read back
/// by the loader's own HTTP reading, its body begins at its end, so it
/// carries no body. This holds when neither the path nor the `Connection`
/// value holds a carriage return.
pub proof fn law_get_request_is_complete(path: Seq<u8>, connection: Seq<u8>)
    requires
        no_carriage_return(path),
        no_carriage_return(connection),
    ensures
        spec_http_body_offset(get_request(path, connection), get_request(path, connection).len() as int)
            == Some(get_request(path, connection).len() as int),
{
    let r = get_request(path, connection);
    let o1: int = 4 + path.len() as int;
    let o2: int = o1 + 42;
    let o3: int = o2 + connection.len() as int;
    assert(r.len() == o3 + 4);
    assert(forall|k: int| 0 <= k < 4 ==> #[trigger] r[k] == get_prefix()[k]);
    assert(forall|k: int| 0 <= k < 4 ==> get_prefix()[k] != 0x0d);
    assert(forall|k: int| 4 <= k < o1 ==> #[trigger] r[k] == path[k - 4]);
    assert(forall|k: int| o1 <= k < o2 ==> #[trigger] r[k] == version_host_fields()[k - o1]);
    assert(forall|k: int| o2 <= k < o3 ==> #[trigger] r[k] == connection[k - o2]);
    assert(forall|k: int| o3 <= k < o3 + 4 ==> #[trigger] r[k] == header_block_end()[k - o3]);
    let v = version_host_fields();
    assert(forall|k: int| 0 <= k < 42 && k != 9 && k != 28 ==> v[k] != 0x0d);
    assert(v[11] == 0x48 && v[30] == 0x43);
    assert(header_end_at(r, o3));
    assert forall|j: int| 0 <= j < o3 implies !header_end_at(r, j) by {
        if j < 4 {
        } else if j < o1 {
        } else if j < o2 {
            if j == o1 + 9 || j == o1 + 28 {
                assert(r[j + 2] == v[j + 2 - o1]);
            }
        } else {
        }
    }
    lemma_body_offset_is(r, r.len() as int, r.len() as int);
}

/// A `200 OK` reply of the boot server, read by the loader's HTTP reading,
/// carries status 200 and its body is exactly the file that was served.
/// This holds when the content type holds no carriage return.
pub proof fn law_served_file_reads_back(content_type: Seq<u8>, body: Seq<u8>)
    requires
        no_carriage_return(content_type),
    ensures
        http_body(response_bytes(status_200(), content_type, body, true)) == body,
        spec_status_is_200(
            response_bytes(status_200(), content_type, body, true),
            response_bytes(status_200(), content_type, body, true).len() as int,
        ),
{
    let r = response_bytes(status_200(), content_type, body, true);
    let dg = dec_digits(body.len());
    lemma_dec_digits(body.len());
    let o1: int = 31;
    let o2: int = o1 + content_type.len() as int;
    let o3: int = o2 + 18;
    let o4: int = o3 + dg.len() as int;
    let hl: int = o4 + 23;
    assert(r.len() == hl + body.len());
    let a = http11_prefix() + status_200() + content_type_field();
    assert(forall|k: int| 0 <= k < o1 ==> #[trigger] r[k] == a[k]);
    assert(forall|k: int| o1 <= k < o2 ==> #[trigger] r[k] == content_type[k - o1]);
    assert(forall|k: int| o2 <= k < o3 ==> #[trigger] r[k] == content_length_field()[k - o2]);
    assert(forall|k: int| o3 <= k < o4 ==> #[trigger] r[k] == dg[k - o3]);
    assert(forall|k: int| o4 <= k < hl ==> #[trigger] r[k] == connection_close_end()[k - o4]);
    assert(forall|k: int| hl <= k < r.len() ==> #[trigger] r[k] == body[k - hl]);
    assert(forall|k: int| 0 <= k < o1 && k != 15 ==> a[k] != 0x0d);
    assert(a[17] == 0x43);
    assert(forall|k: int| 0 <= k < 18 && k != 0 ==> content_length_field()[k] != 0x0d);
    assert(content_length_field()[2] == 0x43);
    let c = connection_close_end();
    assert(forall|k: int| 0 <= k < 23 && k != 0 && k != 19 && k != 21 ==> c[k] != 0x0d);
    assert(c[2] == 0x43);
    assert(header_end_at(r, hl - 4));
    assert forall|j: int| 0 <= j < hl - 4 implies !header_end_at(r, j) by {
        if j < o1 {
            if j == 15 {
                assert(r[j + 2] == a[17]);
            }
        } else if j < o2 {
        } else if j < o3 {
            if j == o2 {
                assert(r[j + 2] == content_length_field()[2]);
            }
        } else if j < o4 {
            assert(0x30 <= dg[j - o3] <= 0x39);
        } else {
            if j == o4 {
                assert(r[j + 2] == c[2]);
            }
        }
    }
    lemma_body_offset_is(r, r.len() as int, hl);
    assert(r.skip(hl) =~= body);
    reveal(spec_http_status_offset);
    assert(status_tag_at(r, 0));
    assert(0 <= 0 && 0 + 11 < r.len() && status_tag_at(r, 0));
    let i = choose|i: int| 0 <= i && i + 11 < r.len() && status_tag_at(r, i)
        && forall|j: int| 0 <= j < i ==> !status_tag_at(r, j);
    assert(0 <= 0 && 0 + 11 < r.len() && status_tag_at(r, 0) && forall|j: int| 0 <= j < 0 ==> !status_tag_at(r, j));
    if i > 0 {
        assert(!status_tag_at(r, 0));
    }
    assert(r[8] == 0x20 && r[9] == 0x32 && r[10] == 0x30 && r[11] == 0x30);
}

/// A kernel download that ends in success over a response that is the
/// boot server's `200 OK` reply for a file of the announced size holds
/// exactly that file.
pub proof fn law_download_of_served_file(s: KernelStream, content_type: Seq<u8>, file: Seq<u8>)
    requires
        s.wf(),
        s.outcome() == Some(EfiStatus(EFI_SUCCESS)),
        s.plaintext() == response_bytes(status_200(), content_type, file, true),
        s.size() == file.len(),
        no_carriage_return(content_type),
    ensures
        s.image() == file,
{
    s.law_success_is_body_prefix();
    law_served_file_reads_back(content_type, file);
    assert(file.take(file.len() as int) =~= file);
}

/// The manifest the loader assembles from the boot server's `200 OK` reply
/// for a non-empty file is that file.
pub proof fn law_served_manifest_reads_back(content_type: Seq<u8>, file: Seq<u8>)
    requires
        file.len() > 0,
        no_carriage_return(content_type),
    ensures
        manifest_body(response_bytes(status_200(), content_type, file, true)) == Some(file),
{
    let r = response_bytes(status_200(), content_type, file, true);
    law_served_file_reads_back(content_type, file);
    crate::http_wire::lemma_body_offset_props(r, r.len() as int);
}

} // verus!
