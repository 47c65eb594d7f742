//! Deterministic UUIDv5 derivation for `case_uid`, `case_revision` and
//! `change_event_uid`: pure functions of already-available values, needing
//! no persistent store and no randomness.
//!
//! Fields are joined with NUL, which never legitimately appears in a
//! uid/id/version string, so distinct field boundaries never collide via
//! naive concatenation.
use vstd::prelude::*;

use sha1::{Digest, Sha1};
use vstd::utf8::encode_utf8;

use crate::text::push_char;

verus! {

/// The SHA-1 digest of `data`.
pub uninterp spec fn sha1_of(data: Seq<u8>) -> Seq<u8>;

/// Calls `sha1::Sha1::digest`. Claims that the digest depends on `data`
/// alone (named `sha1_of`) and is 20 bytes long (`Sha1`'s output size);
/// SHA-1 itself is not restated.
#[verifier::external_body]
fn sha1_digest(data: &[u8]) -> (r: Vec<u8>)
    ensures
        r@ == sha1_of(data@),
        r@.len() == 20,
{
    Sha1::digest(data).to_vec()
}

/// RFC 4122 URL namespace, in network byte order.
pub open spec fn namespace_url() -> Seq<u8> {
    seq![
        0x6bu8, 0xa7u8, 0xb8u8, 0x11u8, 0x9du8, 0xadu8, 0x11u8, 0xd1u8, 0x80u8, 0xb4u8, 0x00u8,
        0xc0u8, 0x4fu8, 0xd4u8, 0x30u8, 0xc8u8,
    ]
}

/// Fields joined with NUL separators.
pub open spec fn join_nul(fields: Seq<Seq<char>>) -> Seq<char>
    decreases fields.len(),
{
    if fields.len() == 0 {
        Seq::empty()
    } else if fields.len() == 1 {
        fields[0]
    } else {
        join_nul(fields.drop_last()) + seq!['\0'] + fields.last()
    }
}

pub open spec fn hex_char(n: u8) -> char {
    if n < 10 {
        (48 + n) as char
    } else {
        (97 + (n - 10)) as char
    }
}

/// Two lowercase hex digits per byte, most significant nibble first.
pub open spec fn hex_bytes(b: Seq<u8>) -> Seq<char>
    decreases b.len(),
{
    if b.len() == 0 {
        Seq::empty()
    } else {
        hex_bytes(b.drop_last()) + seq![
            hex_char(b.last() / 16),
            hex_char(b.last() % 16),
        ]
    }
}

/// The 16 UUID bytes: the digest's first 16 bytes with the version (5) and
/// the RFC 4122 variant bits applied.
pub open spec fn uuid_bytes(digest: Seq<u8>) -> Seq<u8> {
    digest.subrange(0, 16).update(6, (digest[6] % 16 + 0x50) as u8).update(
        8,
        (digest[8] % 64 + 0x80) as u8,
    )
}

/// The hyphenated 8-4-4-4-12 lowercase hex text of 16 bytes.
pub open spec fn uuid_text(b: Seq<u8>) -> Seq<char> {
    hex_bytes(b.subrange(0, 4)) + seq!['-'] + hex_bytes(b.subrange(4, 6)) + seq!['-']
        + hex_bytes(b.subrange(6, 8)) + seq!['-'] + hex_bytes(b.subrange(8, 10)) + seq!['-']
        + hex_bytes(b.subrange(10, 16))
}

/// The UUIDv5 text derived from `domain` and `fields`.
pub open spec fn spec_derive(domain: Seq<char>, fields: Seq<Seq<char>>) -> Seq<char> {
    let name = encode_utf8(join_nul(seq![domain] + fields));
    uuid_text(uuid_bytes(sha1_of(namespace_url() + name)))
}

pub open spec fn is_hex_digit(c: char) -> bool {
    ('0' <= c && c <= '9') || ('a' <= c && c <= 'f')
}

/// A hyphenated, lowercase version-5 RFC 4122 UUID string.
pub open spec fn well_formed_v5(s: Seq<char>) -> bool {
    &&& s.len() == 36
    &&& forall|i: int|
        0 <= i < 36 ==> (if i == 8 || i == 13 || i == 18 || i == 23 {
            s[i] == '-'
        } else {
            is_hex_digit(#[trigger] s[i])
        })
    &&& s[14] == '5'
    &&& (s[19] == '8' || s[19] == '9' || s[19] == 'a' || s[19] == 'b')
}

proof fn lemma_hex_bytes_shape(b: Seq<u8>)
    ensures
        hex_bytes(b).len() == 2 * b.len(),
        forall|i: int|
            0 <= i < hex_bytes(b).len() ==> #[trigger] hex_bytes(b)[i] == (if i % 2 == 0 {
                hex_char(b[i / 2] / 16)
            } else {
                hex_char(b[i / 2] % 16)
            }),
        forall|i: int| 0 <= i < hex_bytes(b).len() ==> is_hex_digit(#[trigger] hex_bytes(b)[i]),
    decreases b.len(),
{
    if b.len() > 0 {
        let p = b.drop_last();
        lemma_hex_bytes_shape(p);
        let x = b.last();
        assert(hex_bytes(b) == hex_bytes(p) + seq![hex_char(x / 16), hex_char(x % 16)]);
        assert forall|i: int| 0 <= i < hex_bytes(b).len() implies #[trigger] hex_bytes(b)[i] == (
        if i % 2 == 0 {
            hex_char(b[i / 2] / 16)
        } else {
            hex_char(b[i / 2] % 16)
        }) by {
            if i < 2 * p.len() {
                assert(hex_bytes(b)[i] == hex_bytes(p)[i]);
                assert(p[i / 2] == b[i / 2]);
            } else {
                assert(i / 2 == b.len() - 1);
            }
        }
        assert forall|i: int| 0 <= i < hex_bytes(b).len() implies is_hex_digit(
            #[trigger] hex_bytes(b)[i],
        ) by {
            assert(b[i / 2] / 16 < 16);
            assert(b[i / 2] % 16 < 16);
        }
    }
}

/// Every derived uid is a well-formed version-5 UUID, whatever the digest.
pub proof fn lemma_uuid_text_well_formed(digest: Seq<u8>)
    requires
        digest.len() >= 16,
    ensures
        well_formed_v5(uuid_text(uuid_bytes(digest))),
{
    let b = uuid_bytes(digest);
    lemma_hex_bytes_shape(b.subrange(0, 4));
    lemma_hex_bytes_shape(b.subrange(4, 6));
    lemma_hex_bytes_shape(b.subrange(6, 8));
    lemma_hex_bytes_shape(b.subrange(8, 10));
    lemma_hex_bytes_shape(b.subrange(10, 16));
    let t = uuid_text(b);
    assert(b.subrange(6, 8)[0] == b[6]);
    assert(b.subrange(8, 10)[0] == b[8]);
    assert(b[6] / 16 == 5) by {
        assert(b[6] == (digest[6] % 16 + 0x50) as u8);
    }
    assert(8 <= b[8] / 16 <= 11) by {
        assert(b[8] == (digest[8] % 64 + 0x80) as u8);
    }
    assert(t[14] == hex_bytes(b.subrange(6, 8))[0]);
    assert(t[19] == hex_bytes(b.subrange(8, 10))[0]);
    assert(hex_bytes(b.subrange(6, 8))[0] == hex_char(b[6] / 16));
    assert(hex_bytes(b.subrange(8, 10))[0] == hex_char(b[8] / 16));
    assert(hex_char(5) == '5');
    assert(hex_char(8) == '8');
    assert(hex_char(9) == '9');
    assert(hex_char(10) == 'a');
    assert(hex_char(11) == 'b');
    assert forall|i: int| 0 <= i < 36 implies (if i == 8 || i == 13 || i == 18 || i == 23 {
        t[i] == '-'
    } else {
        is_hex_digit(#[trigger] t[i])
    }) by {
        if i < 8 {
            assert(t[i] == hex_bytes(b.subrange(0, 4))[i]);
        } else if 8 < i < 13 {
            assert(t[i] == hex_bytes(b.subrange(4, 6))[i - 9]);
        } else if 13 < i < 18 {
            assert(t[i] == hex_bytes(b.subrange(6, 8))[i - 14]);
        } else if 18 < i < 23 {
            assert(t[i] == hex_bytes(b.subrange(8, 10))[i - 19]);
        } else if i > 23 {
            assert(t[i] == hex_bytes(b.subrange(10, 16))[i - 24]);
        }
    }
}

fn hex_digit(n: u8) -> (c: char)
    requires
        n < 16,
    ensures
        c == hex_char(n),
{
    if n < 10 {
        (48u8 + n) as char
    } else {
        (97u8 + (n - 10)) as char
    }
}

/// Appends the two hex digits of `b`.
fn push_hex_byte(out: &mut String, b: u8)
    ensures
        final(out)@ == old(out)@ + seq![hex_char(b / 16), hex_char(b % 16)],
{
    let hi = b >> 4;
    let lo = b & 0x0f;
    assert(hi == b / 16 && lo == b % 16) by (bit_vector)
        requires
            hi == b >> 4,
            lo == b & 0x0f,
    ;
    push_char(out, hex_digit(hi));
    push_char(out, hex_digit(lo));
}

/// Appends the hex text of `b[from..to]`.
fn push_hex_range(out: &mut String, b: &Vec<u8>, from: usize, to: usize)
    requires
        from <= to <= b@.len(),
    ensures
        final(out)@ == old(out)@ + hex_bytes(b@.subrange(from as int, to as int)),
{
    let ghost start = out@;
    let mut i = from;
    assert(b@.subrange(from as int, from as int) =~= Seq::<u8>::empty());
    assert(start + hex_bytes(Seq::<u8>::empty()) =~= start);
    while i < to
        invariant
            from <= i <= to <= b@.len(),
            out@ == start + hex_bytes(b@.subrange(from as int, i as int)),
        decreases to - i,
    {
        push_hex_byte(out, b[i]);
        assert(b@.subrange(from as int, i + 1).drop_last() =~= b@.subrange(from as int, i as int));
        i = i + 1;
    }
}

/// Fields joined with NUL separators.
fn canonical_encode(fields: &Vec<String>) -> (r: String)
    ensures
        r@ == join_nul(fields@.map_values(|f: String| f@)),
{
    let ghost fs = fields@.map_values(|f: String| f@);
    let mut out = String::new();
    let mut i: usize = 0;
    while i < fields.len()
        invariant
            i <= fields@.len(),
            fs == fields@.map_values(|f: String| f@),
            out@ == join_nul(fs.take(i as int)),
        decreases fields.len() - i,
    {
        if i > 0 {
            push_char(&mut out, '\0');
        }
        out.append(fields[i].as_str());
        assert(fs.take(i + 1).drop_last() =~= fs.take(i as int));
        if i == 0 {
            assert(fs.take(1) =~= seq![fs[0]]);
        }
        i = i + 1;
    }
    assert(fs.take(fields@.len() as int) =~= fs);
    out
}

fn derive(domain: &str, fields: &Vec<String>) -> (r: String)
    ensures
        r@ == spec_derive(domain@, fields@.map_values(|f: String| f@)),
        well_formed_v5(r@),
{
    let mut all_fields: Vec<String> = Vec::new();
    all_fields.push(String::from_str(domain));
    let mut i: usize = 0;
    while i < fields.len()
        invariant
            i <= fields@.len(),
            all_fields@.map_values(|f: String| f@) == seq![domain@] + fields@.take(
                i as int,
            ).map_values(|f: String| f@),
        decreases fields.len() - i,
    {
        let ghost before = all_fields@;
        all_fields.push(fields[i].clone());
        assert(all_fields@ == before.push(fields@[i as int]));
        assert(all_fields@.map_values(|f: String| f@) =~= before.map_values(|f: String| f@).push(
            fields@[i as int]@,
        ));
        assert(fields@.take(i + 1) =~= fields@.take(i as int).push(fields@[i as int]));
        assert(fields@.take(i + 1).map_values(|f: String| f@) =~= fields@.take(
            i as int,
        ).map_values(|f: String| f@).push(fields@[i as int]@));
        assert(all_fields@.map_values(|f: String| f@) =~= seq![domain@] + fields@.take(
            i + 1,
        ).map_values(|f: String| f@));
        i = i + 1;
    }
    assert(fields@.take(fields@.len() as int) =~= fields@);
    let name = canonical_encode(&all_fields);
    let name_bytes = name.as_str().as_bytes();
    let mut input: Vec<u8> = Vec::new();
    input.push(0x6b);
    input.push(0xa7);
    input.push(0xb8);
    input.push(0x11);
    input.push(0x9d);
    input.push(0xad);
    input.push(0x11);
    input.push(0xd1);
    input.push(0x80);
    input.push(0xb4);
    input.push(0x00);
    input.push(0xc0);
    input.push(0x4f);
    input.push(0xd4);
    input.push(0x30);
    input.push(0xc8);
    assert(input@ =~= namespace_url());
    let mut j: usize = 0;
    while j < name_bytes.len()
        invariant
            j <= name_bytes@.len(),
            input@ == namespace_url() + name_bytes@.take(j as int),
        decreases name_bytes.len() - j,
    {
        input.push(name_bytes[j]);
        assert(name_bytes@.take(j + 1) =~= name_bytes@.take(j as int).push(name_bytes@[j as int]));
        j = j + 1;
    }
    assert(name_bytes@.take(name_bytes@.len() as int) =~= name_bytes@);
    let digest = sha1_digest(input.as_slice());
    let mut bytes: Vec<u8> = Vec::new();
    let mut k: usize = 0;
    while k < 16
        invariant
            k <= 16,
            digest@.len() == 20,
            bytes@ == digest@.subrange(0, k as int),
        decreases 16 - k,
    {
        bytes.push(digest[k]);
        assert(digest@.subrange(0, k + 1) =~= digest@.subrange(0, k as int).push(digest@[k as int]));
        k = k + 1;
    }
    let b6 = bytes[6];
    let b8 = bytes[8];
    let v6 = (b6 & 0x0f) | 0x50;
    let v8 = (b8 & 0x3f) | 0x80;
    assert(v6 == (b6 % 16 + 0x50) as u8) by (bit_vector)
        requires
            v6 == (b6 & 0x0f) | 0x50,
    ;
    assert(v8 == (b8 % 64 + 0x80) as u8) by (bit_vector)
        requires
            v8 == (b8 & 0x3f) | 0x80,
    ;
    bytes.set(6, v6);
    bytes.set(8, v8);
    assert(bytes@ =~= uuid_bytes(digest@));
    let mut out = String::new();
    push_hex_range(&mut out, &bytes, 0, 4);
    push_char(&mut out, '-');
    push_hex_range(&mut out, &bytes, 4, 6);
    push_char(&mut out, '-');
    push_hex_range(&mut out, &bytes, 6, 8);
    push_char(&mut out, '-');
    push_hex_range(&mut out, &bytes, 8, 10);
    push_char(&mut out, '-');
    push_hex_range(&mut out, &bytes, 10, 16);
    assert(out@ =~= uuid_text(bytes@));
    proof {
        lemma_uuid_text_well_formed(digest@);
    }
    out
}

/// `case_uid`: derived from `scenario_uid` alone (one Scenario is one
/// TestCase), so a rename that keeps the Scenario's uid keeps the case uid.
pub fn case_uid(scenario_uid: &str) -> (r: String)
    ensures
        r@ == spec_derive("markharness:case_uid:v3"@, seq![scenario_uid@]),
        well_formed_v5(r@),
{
    let mut fields: Vec<String> = Vec::new();
    fields.push(String::from_str(scenario_uid));
    assert(fields@.map_values(|f: String| f@) =~= seq![scenario_uid@]);
    derive("markharness:case_uid:v3", &fields)
}

/// `case_revision`: derived purely from a TestCase's effective content, the
/// canonical encoding of its procedure-expanded phases.
pub fn case_revision(canonical_phases: &str) -> (r: String)
    ensures
        r@ == spec_derive("markharness:case_revision:v1"@, seq![canonical_phases@]),
        well_formed_v5(r@),
{
    let mut fields: Vec<String> = Vec::new();
    fields.push(String::from_str(canonical_phases));
    assert(fields@.map_values(|f: String| f@) =~= seq![canonical_phases@]);
    derive("markharness:case_revision:v1", &fields)
}

/// `change_event_uid`: derived from the algorithm version, the from/to
/// snapshot identities, the target feature uid, the canonical change
/// payload and the canonical result-affecting options.
pub fn change_event_uid(
    algorithm_version: &str,
    from_snapshot_identity: &str,
    to_snapshot_identity: &str,
    feature_uid: &str,
    canonical_change_payload: &str,
    canonical_options: &str,
) -> (r: String)
    ensures
        r@ == spec_derive(
            "markharness:change_event_uid:v1"@,
            seq![
                algorithm_version@,
                from_snapshot_identity@,
                to_snapshot_identity@,
                feature_uid@,
                canonical_change_payload@,
                canonical_options@,
            ],
        ),
        well_formed_v5(r@),
{
    let mut fields: Vec<String> = Vec::new();
    fields.push(String::from_str(algorithm_version));
    fields.push(String::from_str(from_snapshot_identity));
    fields.push(String::from_str(to_snapshot_identity));
    fields.push(String::from_str(feature_uid));
    fields.push(String::from_str(canonical_change_payload));
    fields.push(String::from_str(canonical_options));
    assert(fields@.map_values(|f: String| f@) =~= seq![
        algorithm_version@,
        from_snapshot_identity@,
        to_snapshot_identity@,
        feature_uid@,
        canonical_change_payload@,
        canonical_options@,
    ]);
    derive("markharness:change_event_uid:v1", &fields)
}

} // verus!
