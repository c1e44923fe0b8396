//! A stable fingerprint of the device, by which a trial key is given to it.

use crate::text::{
    begins_with, chars_of, hex_digit, lines, lines_of, optional_view, starts_with, string_of, texts,
    the_digits, trim, trimmed,
};
use sha2::Digest;
use vstd::prelude::*;
use vstd::utf8::encode_utf8;

verus! {

/// What is known of the device. Each part is missing where it could not be read.
pub struct DeviceSources {
    /// The contents of `/etc/machine-id`.
    pub machine_id: Option<String>,
    /// The contents of `/var/lib/dbus/machine-id`.
    pub dbus_machine_id: Option<String>,
    /// The variable `HOSTNAME`.
    pub hostname: Option<String>,
    /// The contents of `/etc/hostname`.
    pub hostname_file: Option<String>,
    /// The variable `USER`.
    pub user: Option<String>,
    /// The contents of `/proc/cpuinfo`.
    pub cpuinfo: Option<String>,
}

/// The bytes of a text that may be missing.
pub open spec fn optional_bytes(s: Option<Seq<char>>) -> Seq<u8> {
    match s {
        Some(s) => encode_utf8(s),
        None => Seq::empty(),
    }
}

/// The name of the host: the variable, or else the file without the white space around it.
pub open spec fn host_name(s: DeviceSources) -> Option<Seq<char>> {
    match (s.hostname, s.hostname_file) {
        (Some(name), _) => Some(name@),
        (None, Some(file)) => Some(trimmed(file@)),
        (None, None) => None,
    }
}

/// The bytes that identify the installation: the machine identifier, or else the host and
/// the user.
pub open spec fn machine_bytes(s: DeviceSources) -> Seq<u8> {
    match (s.machine_id, s.dbus_machine_id) {
        (Some(id), _) => encode_utf8(trimmed(id@)),
        (None, Some(id)) => encode_utf8(trimmed(id@)),
        (None, None) => optional_bytes(host_name(s)) + optional_bytes(optional_view(s.user)),
    }
}

/// The first line from `i` on that names the model of the processor.
pub open spec fn model_line(lines: Seq<Seq<char>>, i: nat) -> Option<Seq<char>>
    decreases lines.len() - i,
{
    if i >= lines.len() {
        None
    } else if begins_with(lines[i as int], "model name"@) {
        Some(lines[i as int])
    } else {
        model_line(lines, i + 1)
    }
}

/// The bytes of the line that names the model of the processor.
pub open spec fn processor_bytes(s: DeviceSources) -> Seq<u8> {
    match s.cpuinfo {
        Some(info) => optional_bytes(model_line(lines_of(info@), 0)),
        None => Seq::empty(),
    }
}

/// The bytes from which the fingerprint is made.
pub open spec fn identity(s: DeviceSources) -> Seq<u8> {
    machine_bytes(s) + processor_bytes(s)
}

/// Bytes in hexadecimal, two digits each, the high one first, in lower case.
pub open spec fn hexadecimal(bytes: Seq<u8>) -> Seq<char> {
    Seq::new(
        2 * bytes.len(),
        |i: int|
            if i % 2 == 0 {
                hex_digit(bytes[i / 2] as int / 16)
            } else {
                hex_digit(bytes[i / 2] as int % 16)
            },
    )
}

/// The SHA-256 digest of some bytes.
pub uninterp spec fn sha256(data: Seq<u8>) -> Seq<u8>;

/// `sha2::Sha256::digest`: the digest of the bytes, 32 bytes long. It depends on the
/// bytes alone; what it is, is not stated.
#[verifier::external_body]
fn digest_of(data: &[u8]) -> (r: Vec<u8>)
    ensures
        r@ == sha256(data@),
        r@.len() == 32,
{
    sha2::Sha256::digest(data).to_vec()
}

/// `hex::encode`: the bytes in hexadecimal, in lower case.
#[verifier::external_body]
fn encode_hex(data: &[u8]) -> (r: String)
    ensures
        r@ == hexadecimal(data@),
{
    hex::encode(data)
}

fn push_bytes(out: &mut Vec<u8>, bytes: &[u8])
    ensures
        final(out)@ == old(out)@ + bytes@,
{
    let mut i: usize = 0;
    while i < bytes.len()
        invariant
            i <= bytes@.len(),
            out@ == old(out)@ + bytes@.take(i as int),
        decreases bytes@.len() - i,
    {
        out.push(bytes[i]);
        i += 1;
        assert(old(out)@ + bytes@.take(i as int) =~= (old(out)@ + bytes@.take(i - 1)).push(
            bytes@[i - 1],
        ));
    }
    assert(bytes@.take(bytes@.len() as int) =~= bytes@);
}

fn push_text(out: &mut Vec<u8>, s: &str)
    ensures
        final(out)@ == old(out)@ + encode_utf8(s@),
{
    push_bytes(out, s.as_bytes());
}

fn push_trimmed(out: &mut Vec<u8>, s: &str)
    ensures
        final(out)@ == old(out)@ + encode_utf8(trimmed(s@)),
{
    let all = chars_of(s);
    let bare = string_of(trim(&all));
    push_text(out, bare.as_str());
}

fn push_model_line(out: &mut Vec<u8>, cpuinfo: &str)
    ensures
        final(out)@ == old(out)@ + optional_bytes(model_line(lines_of(cpuinfo@), 0)),
{
    let all = chars_of(cpuinfo);
    let rows = lines(&all);
    let ghost views = texts(rows@);
    let mut i: usize = 0;
    while i < rows.len()
        invariant
            i <= rows@.len(),
            views == texts(rows@),
            views == lines_of(cpuinfo@),
            out@ == old(out)@,
            model_line(views, 0) == model_line(views, i as nat),
        decreases rows@.len() - i,
    {
        let row: &[char] = rows[i];
        assert(row@ == views[i as int]);
        if starts_with(row, "model name") {
            let line = string_of(row);
            push_text(out, line.as_str());
            return;
        }
        i += 1;
    }
    assert(out@ =~= old(out)@ + Seq::<u8>::empty());
}

/// Puts the bytes together from which the fingerprint is made.
pub fn identity_bytes(sources: &DeviceSources) -> (r: Vec<u8>)
    ensures
        r@ == identity(*sources),
{
    let mut out: Vec<u8> = Vec::new();
    match (&sources.machine_id, &sources.dbus_machine_id) {
        (Some(id), _) => push_trimmed(&mut out, id.as_str()),
        (None, Some(id)) => push_trimmed(&mut out, id.as_str()),
        (None, None) => {
            match (&sources.hostname, &sources.hostname_file) {
                (Some(name), _) => push_text(&mut out, name.as_str()),
                (None, Some(file)) => push_trimmed(&mut out, file.as_str()),
                (None, None) => {},
            }
            if let Some(user) = &sources.user {
                push_text(&mut out, user.as_str());
            }
        },
    }
    assert(out@ =~= machine_bytes(*sources));
    if let Some(cpuinfo) = &sources.cpuinfo {
        push_model_line(&mut out, cpuinfo.as_str());
    }
    assert(out@ =~= identity(*sources));
    out
}

/// Writes a digest as a fingerprint.
pub fn fingerprint_of(digest: &[u8]) -> (r: String)
    ensures
        r@ == hexadecimal(digest@),
{
    encode_hex(digest)
}

/// Makes the fingerprint of a device.
pub fn generate_device_fingerprint(sources: &DeviceSources) -> (r: String)
    ensures
        r@ == hexadecimal(sha256(identity(*sources))),
        r@.len() == 64,
{
    let bytes = identity_bytes(sources);
    let digest = digest_of(&bytes);
    fingerprint_of(&digest)
}

/// The fingerprint is stable: a device with a machine identifier keeps it whatever its
/// host and its user are called, and white space around the identifier changes nothing.
pub proof fn the_machine_identifier_decides(a: DeviceSources, b: DeviceSources)
    requires
        a.machine_id is Some,
        b.machine_id is Some,
        trimmed(a.machine_id->0@) == trimmed(b.machine_id->0@),
        optional_view(a.cpuinfo) == optional_view(b.cpuinfo),
    ensures
        hexadecimal(sha256(identity(a))) == hexadecimal(sha256(identity(b))),
{
}

/// What the fingerprint rests on. The second machine identifier counts only where the first is
/// missing, and then as the first would. The host and the user count only where both are
/// missing: the name of the host as it is, or what its file holds without the white space
/// around it, and then the user. What is known of the processor comes last.
pub proof fn what_is_missing_is_made_up_for(s: DeviceSources, id: String, other: String)
    ensures
        identity(DeviceSources { machine_id: Some(id), cpuinfo: None, ..s }) == encode_utf8(
            trimmed(id@),
        ),
        identity(DeviceSources { machine_id: None, dbus_machine_id: Some(id), ..s }) == identity(
            DeviceSources { machine_id: Some(id), ..s },
        ),
        identity(
            DeviceSources {
                machine_id: None,
                dbus_machine_id: None,
                hostname: Some(id),
                user: None,
                cpuinfo: None,
                ..s
            },
        ) == encode_utf8(id@),
        other@ == trimmed(id@) ==> identity(
            DeviceSources {
                machine_id: None,
                dbus_machine_id: None,
                hostname: None,
                hostname_file: Some(id),
                ..s
            },
        ) == identity(
            DeviceSources {
                machine_id: None,
                dbus_machine_id: None,
                hostname: Some(other),
                ..s
            },
        ),
        identity(
            DeviceSources {
                machine_id: None,
                dbus_machine_id: None,
                user: Some(id),
                cpuinfo: None,
                ..s
            },
        ) == identity(
            DeviceSources {
                machine_id: None,
                dbus_machine_id: None,
                user: None,
                cpuinfo: None,
                ..s
            },
        ) + encode_utf8(id@),
        identity(
            DeviceSources {
                machine_id: None,
                dbus_machine_id: None,
                hostname: None,
                hostname_file: None,
                user: None,
                cpuinfo: None,
            },
        ).len() == 0,
{
    let none = Seq::<u8>::empty();
    assert(encode_utf8(trimmed(id@)) + none =~= encode_utf8(trimmed(id@)));
    assert(encode_utf8(id@) + none + none =~= encode_utf8(id@));
    let host = optional_bytes(host_name(s));
    assert((host + encode_utf8(id@)) + none =~= (host + none + none) + encode_utf8(id@));
}

proof fn lemma_model_line(lines: Seq<Seq<char>>, i: nat) -> (k: int)
    requires
        i <= lines.len(),
    ensures
        match model_line(lines, i) {
            Some(line) => {
                &&& i <= k < lines.len()
                &&& line == lines[k]
                &&& begins_with(line, "model name"@)
                &&& forall|j: int| i <= j < k ==> !begins_with(#[trigger] lines[j], "model name"@)
            },
            None => forall|j: int|
                i <= j < lines.len() ==> !begins_with(#[trigger] lines[j], "model name"@),
        },
    decreases lines.len() - i,
{
    if i >= lines.len() || begins_with(lines[i as int], "model name"@) {
        i as int
    } else {
        lemma_model_line(lines, i + 1)
    }
}

/// What is known of the processor is the first line that begins with `model name`, whole; it
/// stands behind everything else. Without such a line nothing stands there.
pub proof fn the_first_model_line_counts(s: DeviceSources) -> (k: int)
    ensures
        ({
            let rest = identity(DeviceSources { cpuinfo: None, ..s });
            match s.cpuinfo {
                Some(info) => {
                    let lines = lines_of(info@);
                    ||| {
                        &&& 0 <= k < lines.len()
                        &&& begins_with(lines[k], "model name"@)
                        &&& forall|j: int|
                            0 <= j < k ==> !begins_with(#[trigger] lines[j], "model name"@)
                        &&& identity(s) == rest + encode_utf8(lines[k])
                    }
                    ||| {
                        &&& forall|j: int|
                            0 <= j < lines.len() ==> !begins_with(
                                #[trigger] lines[j],
                                "model name"@,
                            )
                        &&& identity(s) == rest
                    }
                },
                None => identity(s) == rest,
            }
        }),
{
    let bare = DeviceSources { cpuinfo: None, ..s };
    assert(machine_bytes(bare) == machine_bytes(s));
    assert(identity(bare) =~= machine_bytes(s));
    match s.cpuinfo {
        Some(info) => {
            let k = lemma_model_line(lines_of(info@), 0);
            assert(model_line(lines_of(info@), 0) is None ==> identity(s) =~= identity(bare));
            k
        },
        None => {
            assert(identity(s) =~= identity(bare));
            0
        },
    }
}

/// Each byte is written as two hexadecimal digits, the high one first, from which it can be
/// read back.
pub proof fn a_byte_is_two_digits(bytes: Seq<u8>, i: int)
    requires
        0 <= i < bytes.len(),
    ensures
        hexadecimal(bytes).len() == 2 * bytes.len(),
        exists|high: int, low: int|
            {
                &&& 0 <= high < 16
                &&& 0 <= low < 16
                &&& bytes[i] == high * 16 + low
                &&& hexadecimal(bytes)[2 * i] == #[trigger] "0123456789abcdef"@[high]
                &&& hexadecimal(bytes)[2 * i + 1] == #[trigger] "0123456789abcdef"@[low]
            },
{
    let high = bytes[i] as int / 16;
    let low = bytes[i] as int % 16;
    the_digits(high);
    the_digits(low);
    assert((2 * i) / 2 == i && (2 * i) % 2 == 0);
    assert((2 * i + 1) / 2 == i && (2 * i + 1) % 2 == 1);
    assert(hexadecimal(bytes)[2 * i] == "0123456789abcdef"@[high]);
    assert(hexadecimal(bytes)[2 * i + 1] == "0123456789abcdef"@[low]);
}

} // verus!
