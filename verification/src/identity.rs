//! Project and device identity: the stable bootstrap ID of a legacy record,
//! fresh opaque IDs for new records, and the display label of a machine.
use crate::text::{
    all_ws, char_vec, decimal, digit_char, hex16_chars, hex_digits, is_ws, lemma_hex_injective, lemma_hex_len, pow16,
    lemma_trim_facts, string_from_chars, trim, trim_char_vec, trim_matches, trim_text, is_blank,
    has_prefix, concat,
};
use vstd::prelude::*;
use vstd::string::StringSliceAdditionalSpecFns;
use vstd::utf8::encode_utf8;

verus! {

pub const FNV_OFFSET: u64 = 0xcbf29ce484222325;

pub const FNV_PRIME: u64 = 0x100000001b3;

/// One FNV-1a step.
pub open spec fn fnv_step(h: u64, b: u8) -> u64 {
    (h ^ (b as u64)).wrapping_mul(FNV_PRIME)
}

/// FNV-1a over a byte string, from the running value `h`.
pub open spec fn fnv_bytes(h: u64, bytes: Seq<u8>) -> u64
    decreases bytes.len(),
{
    if bytes.len() == 0 {
        h
    } else {
        fnv_step(fnv_bytes(h, bytes.drop_last()), bytes.last())
    }
}

/// One field folded in, then a 0xff separator so that field boundaries count.
pub open spec fn fnv_field(h: u64, field: Seq<u8>) -> u64 {
    fnv_step(fnv_bytes(h, field), 0xff)
}

/// The 64-bit fingerprint of a legacy project record (UTF-8 fields).
pub open spec fn record_hash(name: Seq<u8>, local: Seq<u8>, remote_path: Seq<u8>, remote: Seq<u8>) -> u64 {
    fnv_field(fnv_field(fnv_field(fnv_field(FNV_OFFSET, name), local), remote_path), remote)
}

pub open spec fn project_id_text(hash: u64) -> Seq<char> {
    seq!['p', '_'] + hex_digits(hash as nat, 16)
}

fn fold_field(h: u64, field: &str) -> (r: u64)
    ensures
        r == fnv_field(h, encode_utf8(field@)),
{
    let bytes = field.as_bytes();
    let mut acc = h;
    let mut i: usize = 0;
    while i < bytes.len()
        invariant
            bytes@ == encode_utf8(field@),
            i <= bytes.len(),
            acc == fnv_bytes(h, bytes@.take(i as int)),
        decreases bytes.len() - i,
    {
        assert(bytes@.take((i + 1) as int).drop_last() =~= bytes@.take(i as int));
        acc = (acc ^ (bytes[i] as u64)).wrapping_mul(FNV_PRIME);
        i = i + 1;
    }
    assert(bytes@.take(bytes.len() as int) =~= bytes@);
    (acc ^ 0xff).wrapping_mul(FNV_PRIME)
}

/// Generate the stable identifier of a legacy record from its fields. It is
/// only a bootstrap for records without an ID; once written, the ID follows
/// the project through renames and path edits.
pub fn project_id_for_fields(name: &str, local_path: &str, remote_path: &str, remote: &str) -> (r:
    String)
    ensures
        r@ == project_id_text(
            record_hash(
                encode_utf8(name@),
                encode_utf8(local_path@),
                encode_utf8(remote_path@),
                encode_utf8(remote@),
            ),
        ),
{
    let h1 = fold_field(FNV_OFFSET, name);
    let h2 = fold_field(h1, local_path);
    let h3 = fold_field(h2, remote_path);
    let h4 = fold_field(h3, remote);
    let mut v: Vec<char> = Vec::new();
    v.push('p');
    v.push('_');
    let hex = hex16_chars(h4);
    let mut i: usize = 0;
    while i < hex.len()
        invariant
            i <= hex.len(),
            v@ == seq!['p', '_'] + hex@.take(i as int),
        decreases hex.len() - i,
    {
        v.push(hex[i]);
        i = i + 1;
        assert(v@ =~= seq!['p', '_'] + hex@.take(i as int));
    }
    assert(hex@.take(hex.len() as int) =~= hex@);
    string_from_chars(&v)
}

/// The ID text of a newly created record: a clock reading and a process
/// serial number, so it cannot be reproduced from the record's fields.
pub open spec fn fresh_id_text(nonce: u64, serial: u64) -> Seq<char> {
    seq!['p', '_'] + hex_digits(nonce as nat, 16) + hex_digits(serial as nat, 16)
}

/// Nanoseconds since the Unix epoch, truncated to 64 bits, from
/// `std::time::SystemTime::now()`; 0 for a clock set before the epoch. The
/// value depends on the clock, so nothing is claimed of it.
#[verifier::external_body]
fn unix_time_nanos() -> (r: u64) {
    std::time::SystemTime::now().duration_since(std::time::UNIX_EPOCH).map(
        |duration| duration.as_nanos() as u64,
    ).unwrap_or(0)
}

/// The fresh-ID text for the given clock reading and serial number.
pub fn fresh_project_id_from(nonce: u64, serial: u64) -> (r: String)
    ensures
        r@ == fresh_id_text(nonce, serial),
{
    let mut v: Vec<char> = Vec::new();
    v.push('p');
    v.push('_');
    let a = hex16_chars(nonce);
    let b = hex16_chars(serial);
    let mut i: usize = 0;
    while i < 16
        invariant
            a@.len() == 16,
            i <= 16,
            v@ == seq!['p', '_'] + a@.take(i as int),
        decreases 16 - i,
    {
        v.push(a[i]);
        i = i + 1;
        assert(v@ =~= seq!['p', '_'] + a@.take(i as int));
    }
    assert(a@.take(16) =~= a@);
    let mut j: usize = 0;
    while j < 16
        invariant
            b@.len() == 16,
            j <= 16,
            v@ == seq!['p', '_'] + a@ + b@.take(j as int),
        decreases 16 - j,
    {
        v.push(b[j]);
        j = j + 1;
        assert(v@ =~= seq!['p', '_'] + a@ + b@.take(j as int));
    }
    assert(b@.take(16) =~= b@);
    string_from_chars(&v)
}

/// A fresh opaque project ID. IDs of newly created records must not be
/// reproducible from mutable project fields, or deleting and recreating an
/// identical record could silently reactivate a device-local schedule of the
/// old project. `serial` is the caller's per-process counter.
pub fn fresh_project_id(serial: u64) -> (r: String)
    ensures
        exists|nonce: u64| r@ == fresh_id_text(nonce, serial),
{
    let nonce = unix_time_nanos();
    fresh_project_id_from(nonce, serial)
}

/// The per-process source of fresh IDs: every ID it hands out carries the
/// next serial number, so two IDs from one process differ in their serial.
pub struct IdSource {
    pub serial: u64,
}

impl IdSource {
    pub fn new() -> (r: Self)
        ensures
            r.serial == 0,
    {
        IdSource { serial: 0 }
    }

    /// A fresh opaque ID; the serial moves on (wrapping at the top).
    pub fn fresh(&mut self) -> (r: String)
        ensures
            exists|nonce: u64| r@ == fresh_id_text(nonce, old(self).serial),
            final(self).serial == (if old(self).serial == u64::MAX {
                0
            } else {
                (old(self).serial + 1) as u64
            }),
    {
        let r = fresh_project_id(self.serial);
        self.serial = if self.serial == u64::MAX {
            0
        } else {
            self.serial + 1
        };
        r
    }
}

/// Allocate the ID of a project that will be persisted after a successful
/// operation, such as the first pull of a remote folder.
pub fn fresh_project_id_for_new_record(ids: &mut IdSource) -> (r: String)
    ensures
        exists|nonce: u64| r@ == fresh_id_text(nonce, old(ids).serial),
        final(ids).serial == (if old(ids).serial == u64::MAX {
            0
        } else {
            (old(ids).serial + 1) as u64
        }),
{
    ids.fresh()
}

/// IDs of newly created records are never reproducible from a record's
/// fields: a fresh ID is never the bootstrap ID of any legacy record. Both
/// kinds of ID are non-blank.
pub proof fn law_fresh_ids_are_not_field_ids(nonce: u64, serial: u64, hash: u64)
    ensures
        fresh_id_text(nonce, serial) != project_id_text(hash),
        trim(fresh_id_text(nonce, serial)).len() > 0,
        trim(project_id_text(hash)).len() > 0,
{
    lemma_hex_len(nonce as nat, 16);
    lemma_hex_len(serial as nat, 16);
    lemma_hex_len(hash as nat, 16);
    assert(fresh_id_text(nonce, serial).len() == 34);
    assert(project_id_text(hash).len() == 18);
    let f = fresh_id_text(nonce, serial);
    let b = project_id_text(hash);
    lemma_trim_facts(f);
    lemma_trim_facts(b);
    assert(f[0] == 'p');
    assert(b[0] == 'p');
    assert(!all_ws(f)) by {
        assert(!is_ws(f[0]));
    }
    assert(!all_ws(b)) by {
        assert(!is_ws(b[0]));
    }
}

/// Fresh IDs drawn with different serials differ, whatever the clock read:
/// the IDs one process hands out never repeat until its serial wraps.
pub proof fn law_fresh_ids_differ_in_serial(nonce1: u64, serial1: u64, nonce2: u64, serial2: u64)
    requires
        serial1 != serial2,
    ensures
        fresh_id_text(nonce1, serial1) != fresh_id_text(nonce2, serial2),
{
    let a = fresh_id_text(nonce1, serial1);
    let b = fresh_id_text(nonce2, serial2);
    lemma_hex_len(nonce1 as nat, 16);
    lemma_hex_len(serial1 as nat, 16);
    lemma_hex_len(nonce2 as nat, 16);
    lemma_hex_len(serial2 as nat, 16);
    assert(a.subrange(18, 34) =~= hex_digits(serial1 as nat, 16));
    assert(b.subrange(18, 34) =~= hex_digits(serial2 as nat, 16));
    if a == b {
        assert(pow16(16) == 0x1_0000_0000_0000_0000) by {
            reveal_with_fuel(pow16, 17);
        }
        lemma_hex_injective(serial1 as nat, serial2 as nat, 16);
    }
}

// ---------------------------------------------------------------------------
// Machine labels.
pub open spec fn is_label_char(c: char) -> bool {
    ('0' <= c <= '9') || ('a' <= c <= 'z') || ('A' <= c <= 'Z') || c == '.' || c == '_' || c
        == '-'
}

/// Keep ASCII letters, digits, `.`, `_` and `-`; every run of other
/// characters becomes one `-` unless the label already ends in `-`.
pub open spec fn label_scan(raw: Seq<char>) -> Seq<char>
    decreases raw.len(),
{
    if raw.len() == 0 {
        Seq::empty()
    } else {
        let acc = label_scan(raw.drop_last());
        let c = raw.last();
        if is_label_char(c) {
            acc.push(c)
        } else if acc.len() > 0 && acc.last() == '-' {
            acc
        } else {
            acc.push('-')
        }
    }
}

pub open spec fn sanitized_label(raw: Seq<char>) -> Seq<char> {
    let t = trim_matches(label_scan(raw), '-');
    if t.len() == 0 {
        "default"@
    } else {
        if t.len() <= 63 {
            t
        } else {
            t.take(63)
        }
    }
}

pub fn sanitize_machine_label(raw: &str) -> (r: String)
    ensures
        r@ == sanitized_label(raw@),
{
    let chars = char_vec(raw);
    let mut label: Vec<char> = Vec::new();
    let mut i: usize = 0;
    while i < chars.len()
        invariant
            chars@ == raw@,
            i <= chars.len(),
            label@ == label_scan(raw@.take(i as int)),
        decreases chars.len() - i,
    {
        let c = chars[i];
        assert(raw@.take((i + 1) as int).drop_last() =~= raw@.take(i as int));
        let keep = ('0' <= c && c <= '9') || ('a' <= c && c <= 'z') || ('A' <= c && c <= 'Z') || c
            == '.' || c == '_' || c == '-';
        if keep {
            label.push(c);
        } else if label.len() > 0 && label[label.len() - 1] == '-' {
        } else {
            label.push('-');
        }
        i = i + 1;
    }
    assert(raw@.take(chars.len() as int) =~= raw@);
    let t = trim_char_vec(&label, '-');
    if t.len() == 0 {
        return String::from_str("default");
    }
    let mut out: Vec<char> = Vec::new();
    let mut j: usize = 0;
    while j < t.len() && j < 63
        invariant
            j <= t.len(),
            j <= 63,
            out@ == t@.take(j as int),
        decreases t.len() - j,
    {
        out.push(t[j]);
        j = j + 1;
        assert(out@ =~= t@.take(j as int));
    }
    if t.len() <= 63 {
        assert(out@ =~= t@);
    }
    string_from_chars(&out)
}

// ---------------------------------------------------------------------------
// The device's identity.
/// The stable per-install identity: an override (the `RCSYNC_DEVICE_ID`
/// setting) wins when it is not blank, then the stored identity; both are
/// trimmed. `None` means a new identity must be generated and stored.
pub open spec fn chosen_device_id(over: Option<Seq<char>>, stored: Option<Seq<char>>) -> Option<Seq<char>> {
    match over {
        Some(v) if trim(v).len() > 0 => Some(trim(v)),
        _ => match stored {
            Some(v) if trim(v).len() > 0 => Some(trim(v)),
            _ => None,
        },
    }
}

pub fn device_id_from(over: Option<&str>, stored: Option<&str>) -> (r: Option<String>)
    ensures
        crate::model::text_view(r) == chosen_device_id(crate::local_edits::opt_text(over), crate::local_edits::opt_text(stored)),
{
    match over {
        Some(v) => {
            if !is_blank(v) {
                return Some(trim_text(v));
            }
        },
        None => {},
    }
    match stored {
        Some(v) => {
            if !is_blank(v) {
                return Some(trim_text(v));
            }
        },
        None => {},
    }
    None
}

pub open spec fn device_id_text(source: Seq<char>) -> Seq<char> {
    seq!['d', '_'] + hex_digits(fnv_bytes(FNV_OFFSET, encode_utf8(source)) as nat, 16)
}

/// A new device identity: the FNV-1a fingerprint of `source` (the machine
/// label, a clock reading and the process ID, joined with ':').
pub fn generated_device_id(source: &str) -> (r: String)
    ensures
        r@ == device_id_text(source@),
{
    let bytes = source.as_bytes();
    let mut h: u64 = FNV_OFFSET;
    let mut i: usize = 0;
    while i < bytes.len()
        invariant
            bytes@ == encode_utf8(source@),
            i <= bytes.len(),
            h == fnv_bytes(FNV_OFFSET, bytes@.take(i as int)),
        decreases bytes.len() - i,
    {
        assert(bytes@.take((i + 1) as int).drop_last() =~= bytes@.take(i as int));
        h = (h ^ (bytes[i] as u64)).wrapping_mul(FNV_PRIME);
        i = i + 1;
    }
    assert(bytes@.take(bytes.len() as int) =~= bytes@);
    let mut v: Vec<char> = Vec::new();
    v.push('d');
    v.push('_');
    let hex = hex16_chars(h);
    let mut k: usize = 0;
    while k < hex.len()
        invariant
            k <= hex.len(),
            v@ == seq!['d', '_'] + hex@.take(k as int),
        decreases hex.len() - k,
    {
        v.push(hex[k]);
        k = k + 1;
        assert(v@ =~= seq!['d', '_'] + hex@.take(k as int));
    }
    assert(hex@.take(hex.len() as int) =~= hex@);
    string_from_chars(&v)
}

/// `str::to_lowercase` (full Unicode lower-casing).
pub uninterp spec fn lowercase(s: Seq<char>) -> Seq<char>;

/// `str::to_lowercase`; the result depends on the text alone, so it is named.
#[verifier::external_body]
fn to_lowercase_text(s: &str) -> (r: String)
    ensures
        r@ == lowercase(s@),
{
    s.to_lowercase()
}

/// `hostname::get()`, as text (lossy). It reads the machine's name, so
/// nothing is claimed of it.
#[verifier::external_body]
fn host_name() -> (r: Option<String>) {
    hostname::get().ok().map(|s| s.to_string_lossy().to_string())
}

pub open spec fn machine_label_of(raw: Seq<char>) -> Seq<char> {
    let low = lowercase(raw);
    let base = if low.len() >= 6 && low.subrange(low.len() - 6, low.len() as int) == ".local"@ {
        low.subrange(0, low.len() - 6)
    } else {
        low
    };
    sanitized_label(base)
}

/// The display label of a machine named `raw`: lower-cased, without a
/// trailing ".local", sanitized.
pub fn machine_label(raw: &str) -> (r: String)
    ensures
        r@ == machine_label_of(raw@),
{
    let low = to_lowercase_text(raw);
    let v = char_vec(low.as_str());
    let n = v.len();
    proof {
        reveal_strlit(".local");
    }
    let has_suffix = n >= 6 && v[n - 6] == '.' && v[n - 5] == 'l' && v[n - 4] == 'o' && v[n - 3] == 'c'
        && v[n - 2] == 'a' && v[n - 1] == 'l';
    if has_suffix {
        assert(low@.subrange(low@.len() - 6, low@.len() as int) =~= ".local"@);
        let mut base: Vec<char> = Vec::new();
        let mut i: usize = 0;
        while i < n - 6
            invariant
                n >= 6,
                n == v@.len(),
                i <= n - 6,
                base@ == v@.take(i as int),
            decreases n - 6 - i,
        {
            base.push(v[i]);
            i = i + 1;
            assert(base@ =~= v@.take(i as int));
        }
        assert(base@ =~= low@.subrange(0, low@.len() - 6));
        let b = string_from_chars(&base);
        sanitize_machine_label(b.as_str())
    } else {
        proof {
            if low@.len() >= 6 && low@.subrange(low@.len() - 6, low@.len() as int) == ".local"@ {
                assert(low@.subrange(low@.len() - 6, low@.len() as int)[0] == '.');
                assert(low@.subrange(low@.len() - 6, low@.len() as int)[1] == 'l');
                assert(low@.subrange(low@.len() - 6, low@.len() as int)[2] == 'o');
                assert(low@.subrange(low@.len() - 6, low@.len() as int)[3] == 'c');
                assert(low@.subrange(low@.len() - 6, low@.len() as int)[4] == 'a');
                assert(low@.subrange(low@.len() - 6, low@.len() as int)[5] == 'l');
            }
        }
        sanitize_machine_label(low.as_str())
    }
}

/// The current machine's label: the `RCSYNC_MACHINE` override when set
/// (`over`), else the host name, else "default". A label only: never the
/// durable identity of the device.
pub fn machine_name(over: Option<&str>) -> (r: String)
    ensures
        over matches Some(o) ==> r@ == machine_label_of(o@),
        over is None ==> exists|raw: Seq<char>| r@ == machine_label_of(raw),
{
    match over {
        Some(o) => machine_label(o),
        None => match host_name() {
            Some(h) => machine_label(h.as_str()),
            None => machine_label("default"),
        },
    }
}

} // verus!
