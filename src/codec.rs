//! The wire codec shared by host and guest builds.
//!
//! Payloads use bincode's standard configuration: every length is a
//! variable-length integer (one byte up to 250; otherwise a tag byte 251, 252
//! or 253 followed by 2, 4 or 8 little-endian bytes), a byte string is its
//! length followed by its bytes, a sequence is its length followed by its
//! items, and a tuple is its fields one after another.

use vstd::prelude::*;
use vstd::utf8::*;

verus! {

/// The `k` low-order bytes of `n`, least significant first.
pub open spec fn le_bytes(n: nat, k: nat) -> Seq<u8>
    decreases k,
{
    if k == 0 {
        seq![]
    } else {
        seq![(n % 256) as u8] + le_bytes(n / 256, (k - 1) as nat)
    }
}

/// The number that the little-endian bytes `b` stand for.
pub open spec fn le_value(b: Seq<u8>) -> nat
    decreases b.len(),
{
    if b.len() == 0 {
        0
    } else {
        b[0] as nat + 256 * le_value(b.drop_first())
    }
}

/// The variable-length encoding of a length `n`.
pub open spec fn enc_len(n: nat) -> Seq<u8> {
    if n <= 250 {
        seq![n as u8]
    } else if n <= 0xffff {
        seq![251u8] + le_bytes(n, 2)
    } else if n <= 0xffff_ffff {
        seq![252u8] + le_bytes(n, 4)
    } else {
        seq![253u8] + le_bytes(n, 8)
    }
}

/// Reads a variable-length integer at the start of `b`: its value and how
/// many bytes it took. A tag byte is accepted whatever the size of the value
/// after it.
pub open spec fn dec_len(b: Seq<u8>) -> Option<(nat, nat)> {
    if b.len() == 0 {
        None
    } else if b[0] <= 250 {
        Some((b[0] as nat, 1))
    } else if b[0] == 251 {
        if b.len() >= 3 { Some((le_value(b.subrange(1, 3)), 3)) } else { None }
    } else if b[0] == 252 {
        if b.len() >= 5 { Some((le_value(b.subrange(1, 5)), 5)) } else { None }
    } else if b[0] == 253 {
        if b.len() >= 9 { Some((le_value(b.subrange(1, 9)), 9)) } else { None }
    } else {
        None
    }
}

/// A byte string: its length, then its bytes.
pub open spec fn enc_bytes(b: Seq<u8>) -> Seq<u8> {
    enc_len(b.len()) + b
}

/// Reads a byte string at the start of `b`.
pub open spec fn dec_bytes(b: Seq<u8>) -> Option<(Seq<u8>, nat)> {
    match dec_len(b) {
        Some((n, k)) => if k + n <= b.len() {
            Some((b.subrange(k as int, (k + n) as int), k + n))
        } else {
            None
        },
        None => None,
    }
}

/// The items of a sequence, encoded one after another by `e`.
pub open spec fn enc_items<A>(v: Seq<A>, e: spec_fn(A) -> Seq<u8>) -> Seq<u8>
    decreases v.len(),
{
    if v.len() == 0 {
        seq![]
    } else {
        e(v[0]) + enc_items(v.drop_first(), e)
    }
}

/// A sequence: its length, then its items.
pub open spec fn enc_list<A>(v: Seq<A>, e: spec_fn(A) -> Seq<u8>) -> Seq<u8> {
    enc_len(v.len()) + enc_items(v, e)
}

/// Reads `count` items one after another with `d`.
pub open spec fn dec_items<A>(
    b: Seq<u8>,
    count: nat,
    d: spec_fn(Seq<u8>) -> Option<(A, nat)>,
) -> Option<(Seq<A>, nat)>
    decreases count,
{
    if count == 0 {
        Some((seq![], 0))
    } else {
        match d(b) {
            Some((x, k)) => if k <= b.len() {
                match dec_items(b.subrange(k as int, b.len() as int), (count - 1) as nat, d) {
                    Some((xs, k2)) => Some((seq![x] + xs, k + k2)),
                    None => None,
                }
            } else {
                None
            },
            None => None,
        }
    }
}

/// Reads a sequence whose items `d` reads.
pub open spec fn dec_list<A>(b: Seq<u8>, d: spec_fn(Seq<u8>) -> Option<(A, nat)>) -> Option<
    (Seq<A>, nat),
> {
    match dec_len(b) {
        Some((n, k)) => match dec_items(b.subrange(k as int, b.len() as int), n, d) {
            Some((xs, k2)) => Some((xs, k + k2)),
            None => None,
        },
        None => None,
    }
}

/// Writes a byte string.
pub open spec fn bytes_encoder() -> spec_fn(Seq<u8>) -> Seq<u8> {
    |b: Seq<u8>| enc_bytes(b)
}

/// Reads a byte string.
pub open spec fn bytes_decoder() -> spec_fn(Seq<u8>) -> Option<(Seq<u8>, nat)> {
    |b: Seq<u8>| dec_bytes(b)
}


/// 256 to the power `k`.
pub open spec fn pow256(k: nat) -> nat
    decreases k,
{
    if k == 0 {
        1
    } else {
        256 * pow256((k - 1) as nat)
    }
}

/// Little-endian bytes read back as the number they were written from.
pub proof fn lemma_le_round_trip(n: nat, k: nat)
    requires
        n < pow256(k),
    ensures
        le_bytes(n, k).len() == k,
        le_value(le_bytes(n, k)) == n,
    decreases k,
{
    if k > 0 {
        let p = pow256((k - 1) as nat);
        assert(n / 256 < p) by (nonlinear_arith)
            requires
                n < 256 * p,
        ;
        lemma_le_round_trip(n / 256, (k - 1) as nat);
        let b = le_bytes(n, k);
        assert(b.drop_first() =~= le_bytes(n / 256, (k - 1) as nat));
        assert(n % 256 + 256 * (n / 256) == n) by (nonlinear_arith);
    }
}

/// A length reads back as itself, whatever follows it.
pub proof fn lemma_len_round_trip(n: nat, rest: Seq<u8>)
    requires
        n < 0x1_0000_0000_0000_0000,
    ensures
        1 <= enc_len(n).len() <= 9,
        dec_len(enc_len(n) + rest) == Some((n, enc_len(n).len())),
{
    let b = enc_len(n) + rest;
    reveal_with_fuel(pow256, 9);
    assert(pow256(2) == 0x1_0000);
    assert(pow256(4) == 0x1_0000_0000);
    assert(pow256(8) == 0x1_0000_0000_0000_0000);
    if n <= 250 {
    } else if n <= 0xffff {
        lemma_le_round_trip(n, 2);
        assert(b.subrange(1, 3) =~= le_bytes(n, 2));
    } else if n <= 0xffff_ffff {
        lemma_le_round_trip(n, 4);
        assert(b.subrange(1, 5) =~= le_bytes(n, 4));
    } else {
        lemma_le_round_trip(n, 8);
        assert(b.subrange(1, 9) =~= le_bytes(n, 8));
    }
}

/// A byte string reads back as itself, whatever follows it.
pub proof fn lemma_bytes_round_trip(x: Seq<u8>, rest: Seq<u8>)
    requires
        x.len() < 0x1_0000_0000_0000_0000,
    ensures
        dec_bytes(enc_bytes(x) + rest) == Some((x, enc_bytes(x).len())),
{
    let l = enc_len(x.len());
    lemma_len_round_trip(x.len(), x + rest);
    assert(enc_bytes(x) + rest =~= l + (x + rest));
    let b = enc_bytes(x) + rest;
    assert(b.subrange(l.len() as int, (l.len() + x.len()) as int) =~= x);
}

/// `d` reads back what `e` writes, for every value that `valid` admits,
/// whatever follows it.
pub open spec fn round_trips<A>(
    e: spec_fn(A) -> Seq<u8>,
    d: spec_fn(Seq<u8>) -> Option<(A, nat)>,
    valid: spec_fn(A) -> bool,
) -> bool {
    forall|x: A, rest: Seq<u8>| valid(x) ==> #[trigger] d(e(x) + rest) == Some((x, e(x).len()))
}

proof fn lemma_items_round_trip<A>(
    v: Seq<A>,
    rest: Seq<u8>,
    e: spec_fn(A) -> Seq<u8>,
    d: spec_fn(Seq<u8>) -> Option<(A, nat)>,
    valid: spec_fn(A) -> bool,
)
    requires
        round_trips(e, d, valid),
        forall|i: int| 0 <= i < v.len() ==> #[trigger] valid(v[i]),
    ensures
        dec_items(enc_items(v, e) + rest, v.len(), d) == Some((v, enc_items(v, e).len())),
    decreases v.len(),
{
    if v.len() > 0 {
        let tail = v.drop_first();
        let te = enc_items(tail, e);
        assert(valid(v[0]));
        let b = enc_items(v, e) + rest;
        assert(b =~= e(v[0]) + (te + rest));
        assert(d(e(v[0]) + (te + rest)) == Some((v[0], e(v[0]).len())));
        assert forall|i: int| 0 <= i < tail.len() implies #[trigger] valid(tail[i]) by {
            assert(tail[i] == v[i + 1]);
        }
        lemma_items_round_trip(tail, rest, e, d, valid);
        assert(b.subrange(e(v[0]).len() as int, b.len() as int) =~= te + rest);
        assert(seq![v[0]] + tail =~= v);
    }
}

/// A sequence reads back as itself, whatever follows it, when its items do.
pub proof fn lemma_list_round_trip<A>(
    v: Seq<A>,
    rest: Seq<u8>,
    e: spec_fn(A) -> Seq<u8>,
    d: spec_fn(Seq<u8>) -> Option<(A, nat)>,
    valid: spec_fn(A) -> bool,
)
    requires
        round_trips(e, d, valid),
        v.len() < 0x1_0000_0000_0000_0000,
        forall|i: int| 0 <= i < v.len() ==> #[trigger] valid(v[i]),
    ensures
        dec_list(enc_list(v, e) + rest, d) == Some((v, enc_list(v, e).len())),
{
    let l = enc_len(v.len());
    let items = enc_items(v, e);
    lemma_len_round_trip(v.len(), items + rest);
    let b = enc_list(v, e) + rest;
    assert(b =~= l + (items + rest));
    assert(b.subrange(l.len() as int, b.len() as int) =~= items + rest);
    lemma_items_round_trip(v, rest, e, d, valid);
}


/// Whether the length of `x` fits in 64 bits, as every encoded length must.
pub open spec fn fits_u64(x: Seq<u8>) -> bool {
    x.len() < 0x1_0000_0000_0000_0000
}

/// The byte strings whose length fits in 64 bits.
pub open spec fn short_bytes() -> spec_fn(Seq<u8>) -> bool {
    |x: Seq<u8>| fits_u64(x)
}

/// A pair of byte strings, one after the other.
pub open spec fn pair_encoder() -> spec_fn((Seq<u8>, Seq<u8>)) -> Seq<u8> {
    |p: (Seq<u8>, Seq<u8>)| enc_bytes(p.0) + enc_bytes(p.1)
}

/// Reads a pair of byte strings.
pub open spec fn dec_pair(b: Seq<u8>) -> Option<((Seq<u8>, Seq<u8>), nat)> {
    match dec_bytes(b) {
        Some((x, k)) => match dec_bytes(b.subrange(k as int, b.len() as int)) {
            Some((y, k2)) => Some(((x, y), k + k2)),
            None => None,
        },
        None => None,
    }
}

/// Reads a pair of byte strings.
pub open spec fn pair_decoder() -> spec_fn(Seq<u8>) -> Option<((Seq<u8>, Seq<u8>), nat)> {
    |b: Seq<u8>| dec_pair(b)
}

/// The pairs whose two lengths fit in 64 bits.
pub open spec fn short_pair() -> spec_fn((Seq<u8>, Seq<u8>)) -> bool {
    |p: (Seq<u8>, Seq<u8>)| fits_u64(p.0) && fits_u64(p.1)
}

/// A row: a sequence of byte strings.
pub open spec fn row_encoder() -> spec_fn(Seq<Seq<u8>>) -> Seq<u8> {
    |r: Seq<Seq<u8>>| enc_list(r, bytes_encoder())
}

/// Reads a row.
pub open spec fn row_decoder() -> spec_fn(Seq<u8>) -> Option<(Seq<Seq<u8>>, nat)> {
    |b: Seq<u8>| dec_list(b, bytes_decoder())
}

/// Whether a row and each of its byte strings have lengths that fit in 64 bits.
pub open spec fn short_row(r: Seq<Seq<u8>>) -> bool {
    r.len() < 0x1_0000_0000_0000_0000 && forall|i: int| 0 <= i < r.len() ==> #[trigger] fits_u64(r[i])
}

/// The rows that `short_row` admits.
pub open spec fn short_rows() -> spec_fn(Seq<Seq<u8>>) -> bool {
    |r: Seq<Seq<u8>>| short_row(r)
}

proof fn lemma_bytes_round_trips()
    ensures
        round_trips(bytes_encoder(), bytes_decoder(), short_bytes()),
{
    assert forall|x: Seq<u8>, rest: Seq<u8>| short_bytes()(x) implies #[trigger] bytes_decoder()(
        bytes_encoder()(x) + rest,
    ) == Some((x, bytes_encoder()(x).len())) by {
        lemma_bytes_round_trip(x, rest);
    }
}

proof fn lemma_pair_round_trips()
    ensures
        round_trips(pair_encoder(), pair_decoder(), short_pair()),
{
    assert forall|p: (Seq<u8>, Seq<u8>), rest: Seq<u8>| short_pair()(p) implies #[trigger] pair_decoder()(
        pair_encoder()(p) + rest,
    ) == Some((p, pair_encoder()(p).len())) by {
        let a = enc_bytes(p.0);
        let b = pair_encoder()(p) + rest;
        assert(b =~= a + (enc_bytes(p.1) + rest));
        lemma_bytes_round_trip(p.0, enc_bytes(p.1) + rest);
        assert(b.subrange(a.len() as int, b.len() as int) =~= enc_bytes(p.1) + rest);
        lemma_bytes_round_trip(p.1, rest);
    }
}

proof fn lemma_row_round_trips()
    ensures
        round_trips(row_encoder(), row_decoder(), short_rows()),
{
    lemma_bytes_round_trips();
    assert forall|r: Seq<Seq<u8>>, rest: Seq<u8>| short_rows()(r) implies #[trigger] row_decoder()(
        row_encoder()(r) + rest,
    ) == Some((r, row_encoder()(r).len())) by {
        assert forall|i: int| 0 <= i < r.len() implies #[trigger] short_bytes()(r[i]) by {
            assert(fits_u64(r[i]));
        }
        lemma_list_round_trip(r, rest, bytes_encoder(), bytes_decoder(), short_bytes());
    }
}

/// The encoding of a list of ids.
pub open spec fn enc_ids(ids: Seq<Seq<char>>) -> Seq<u8> {
    enc_list(ids.map_values(|s: Seq<char>| encode_utf8(s)), bytes_encoder())
}

/// What a payload of ids decodes to: each id must be valid UTF-8.
pub open spec fn dec_ids(b: Seq<u8>) -> Option<Seq<Seq<char>>> {
    match dec_list(b, bytes_decoder()) {
        Some((xs, _)) => if forall|i: int| 0 <= i < xs.len() ==> #[trigger] valid_utf8(xs[i]) {
            Some(xs.map_values(|x: Seq<u8>| decode_utf8(x)))
        } else {
            None
        },
        None => None,
    }
}

/// The encoding of one id.
pub open spec fn enc_id(id: Seq<char>) -> Seq<u8> {
    enc_bytes(encode_utf8(id))
}

/// What a payload of one id decodes to.
pub open spec fn dec_id(b: Seq<u8>) -> Option<Seq<char>> {
    match dec_bytes(b) {
        Some((x, _)) => if valid_utf8(x) {
            Some(decode_utf8(x))
        } else {
            None
        },
        None => None,
    }
}

/// The encoding of a spawn payload: pairs of a component id and its bytes.
pub open spec fn enc_pairs(ps: Seq<(Seq<char>, Seq<u8>)>) -> Seq<u8> {
    enc_list(
        ps.map_values(|p: (Seq<char>, Seq<u8>)| (encode_utf8(p.0), p.1)),
        pair_encoder(),
    )
}

/// What a spawn payload decodes to: each id must be valid UTF-8.
pub open spec fn dec_pairs(b: Seq<u8>) -> Option<Seq<(Seq<char>, Seq<u8>)>> {
    match dec_list(b, pair_decoder()) {
        Some((xs, _)) => if forall|i: int| 0 <= i < xs.len() ==> #[trigger] valid_utf8(xs[i].0) {
            Some(xs.map_values(|x: (Seq<u8>, Seq<u8>)| (decode_utf8(x.0), x.1)))
        } else {
            None
        },
        None => None,
    }
}

/// The encoding of a query response: one row of component blobs per entity.
pub open spec fn enc_rows(rows: Seq<Seq<Seq<u8>>>) -> Seq<u8> {
    enc_list(rows, row_encoder())
}

/// What a query response decodes to.
pub open spec fn dec_rows(b: Seq<u8>) -> Option<Seq<Seq<Seq<u8>>>> {
    match dec_list(b, row_decoder()) {
        Some((xs, _)) => Some(xs),
        None => None,
    }
}

/// Whether every id's UTF-8 encoding has a length that fits in 64 bits.
pub open spec fn short_ids(ids: Seq<Seq<char>>) -> bool {
    ids.len() < 0x1_0000_0000_0000_0000 && forall|i: int|
        0 <= i < ids.len() ==> #[trigger] fits_u64(encode_utf8(ids[i]))
}

/// Decoding the encoding of a list of ids gives back that list.
pub proof fn lemma_ids_round_trip(ids: Seq<Seq<char>>)
    requires
        short_ids(ids),
    ensures
        dec_ids(enc_ids(ids)) == Some(ids),
{
    let xs = ids.map_values(|s: Seq<char>| encode_utf8(s));
    lemma_bytes_round_trips();
    assert forall|i: int| 0 <= i < xs.len() implies #[trigger] short_bytes()(xs[i]) by {
        assert(fits_u64(encode_utf8(ids[i])));
    }
    lemma_list_round_trip(xs, seq![], bytes_encoder(), bytes_decoder(), short_bytes());
    assert(enc_list(xs, bytes_encoder()) + seq![] =~= enc_ids(ids));
    assert forall|i: int| 0 <= i < xs.len() implies #[trigger] valid_utf8(xs[i]) by {
        encode_utf8_valid_utf8(ids[i]);
    }
    assert forall|i: int| 0 <= i < ids.len() implies xs.map_values(|x: Seq<u8>| decode_utf8(x))[i]
        == #[trigger] ids[i] by {
        encode_utf8_decode_utf8(ids[i]);
    }
    assert(xs.map_values(|x: Seq<u8>| decode_utf8(x)) =~= ids);
}

/// Decoding the encoding of one id gives back that id.
pub proof fn lemma_id_round_trip(id: Seq<char>)
    requires
        fits_u64(encode_utf8(id)),
    ensures
        dec_id(enc_id(id)) == Some(id),
{
    lemma_bytes_round_trip(encode_utf8(id), seq![]);
    assert(enc_id(id) + seq![] =~= enc_id(id));
    encode_utf8_valid_utf8(id);
    encode_utf8_decode_utf8(id);
}

/// Decoding the encoding of a spawn payload gives back that payload.
pub proof fn lemma_pairs_round_trip(ps: Seq<(Seq<char>, Seq<u8>)>)
    requires
        ps.len() < 0x1_0000_0000_0000_0000,
        forall|i: int|
            #![trigger ps[i]]
            0 <= i < ps.len() ==> fits_u64(encode_utf8(ps[i].0)) && fits_u64(ps[i].1),
    ensures
        dec_pairs(enc_pairs(ps)) == Some(ps),
{
    let xs = ps.map_values(|p: (Seq<char>, Seq<u8>)| (encode_utf8(p.0), p.1));
    lemma_pair_round_trips();
    assert forall|i: int| 0 <= i < xs.len() implies #[trigger] short_pair()(xs[i]) by {
        assert(fits_u64(encode_utf8(ps[i].0)) && fits_u64(ps[i].1));
    }
    lemma_list_round_trip(xs, seq![], pair_encoder(), pair_decoder(), short_pair());
    assert(enc_list(xs, pair_encoder()) + seq![] =~= enc_pairs(ps));
    assert forall|i: int| 0 <= i < xs.len() implies #[trigger] valid_utf8(xs[i].0) by {
        encode_utf8_valid_utf8(ps[i].0);
    }
    assert forall|i: int| 0 <= i < ps.len() implies xs.map_values(
        |x: (Seq<u8>, Seq<u8>)| (decode_utf8(x.0), x.1),
    )[i] == #[trigger] ps[i] by {
        encode_utf8_decode_utf8(ps[i].0);
    }
    assert(xs.map_values(|x: (Seq<u8>, Seq<u8>)| (decode_utf8(x.0), x.1)) =~= ps);
}

/// Decoding the encoding of a query response gives back that response.
pub proof fn lemma_rows_round_trip(rows: Seq<Seq<Seq<u8>>>)
    requires
        rows.len() < 0x1_0000_0000_0000_0000,
        forall|i: int| 0 <= i < rows.len() ==> short_row(#[trigger] rows[i]),
    ensures
        dec_rows(enc_rows(rows)) == Some(rows),
{
    lemma_row_round_trips();
    assert forall|i: int| 0 <= i < rows.len() implies #[trigger] short_rows()(rows[i]) by {
        assert(short_row(rows[i]));
    }
    lemma_list_round_trip(rows, seq![], row_encoder(), row_decoder(), short_rows());
    assert(enc_rows(rows) + seq![] =~= enc_rows(rows));
}


/// Why a payload could not be decoded.
#[derive(Debug, Clone, Copy, PartialEq, Eq, Structural)]
pub enum CodecError {
    /// The bytes do not have the expected shape.
    Malformed,
    /// The string at this position of the payload is not valid UTF-8.
    InvalidUtf8(usize),
}

#[verifier::external_type_specification]
#[verifier::external_body]
pub struct ExDecodeError(bincode::error::DecodeError);

/// Relies on `String::from_utf8`: it succeeds exactly on valid UTF-8, and
/// the string then holds the characters that the bytes encode.
#[verifier::external_body]
fn string_from_utf8(b: Vec<u8>) -> (r: Option<String>)
    ensures
        match r {
            Some(s) => valid_utf8(b@) && s@ == decode_utf8(b@),
            None => !valid_utf8(b@),
        },
{
    String::from_utf8(b).ok()
}

/// Relies on `bincode::serde::encode_to_vec` with the standard configuration:
/// writing into a `Vec` cannot fail, and a sequence of strings is its length,
/// then each string's length and UTF-8 bytes.
#[verifier::external_body]
fn bincode_encode_strings(v: &Vec<String>) -> (r: Vec<u8>)
    ensures
        r@ == enc_ids(v.deep_view()),
{
    match bincode::serde::encode_to_vec(v, bincode::config::standard()) {
        Ok(b) => b,
        Err(_) => Vec::new(),
    }
}

/// Relies on `bincode::serde::encode_to_vec` with the standard configuration:
/// a string is its length, then its UTF-8 bytes.
#[verifier::external_body]
fn bincode_encode_string(v: &String) -> (r: Vec<u8>)
    ensures
        r@ == enc_id(v@),
{
    match bincode::serde::encode_to_vec(v, bincode::config::standard()) {
        Ok(b) => b,
        Err(_) => Vec::new(),
    }
}

/// Relies on `bincode::serde::encode_to_vec` with the standard configuration:
/// a sequence of (string, byte vector) tuples is its length, then each field
/// in turn, each one its length and then its bytes.
#[verifier::external_body]
fn bincode_encode_pairs(v: &Vec<(String, Vec<u8>)>) -> (r: Vec<u8>)
    ensures
        r@ == enc_pairs(v.deep_view()),
{
    match bincode::serde::encode_to_vec(v, bincode::config::standard()) {
        Ok(b) => b,
        Err(_) => Vec::new(),
    }
}

/// Relies on `bincode::serde::encode_to_vec` with the standard configuration:
/// a sequence is its length, then its items; a byte vector is its length, then
/// its bytes.
#[verifier::external_body]
fn bincode_encode_rows(v: &Vec<Vec<Vec<u8>>>) -> (r: Vec<u8>)
    ensures
        r@ == enc_rows(v.deep_view()),
{
    match bincode::serde::encode_to_vec(v, bincode::config::standard()) {
        Ok(b) => b,
        Err(_) => Vec::new(),
    }
}

/// Relies on `bincode::serde::decode_from_slice` with the standard
/// configuration, reading a byte vector at the start of `b`: it succeeds
/// exactly when a length and that many bytes are there, and returns them with
/// the number of bytes read.
#[verifier::external_body]
fn bincode_decode_bytes(b: &[u8]) -> (r: Result<(Vec<u8>, usize), bincode::error::DecodeError>)
    ensures
        match r {
            Ok((v, n)) => dec_bytes(b@) == Some((v@, n as nat)),
            Err(_) => dec_bytes(b@) is None,
        },
{
    bincode::serde::decode_from_slice(b, bincode::config::standard())
}

/// Relies on `bincode::serde::decode_from_slice` with the standard
/// configuration, reading a sequence of byte vectors at the start of `b`.
#[verifier::external_body]
fn bincode_decode_byte_list(b: &[u8]) -> (r: Result<(Vec<Vec<u8>>, usize), bincode::error::DecodeError>)
    ensures
        match r {
            Ok((v, n)) => dec_list(b@, bytes_decoder()) == Some((v.deep_view(), n as nat)),
            Err(_) => dec_list(b@, bytes_decoder()) is None,
        },
{
    bincode::serde::decode_from_slice(b, bincode::config::standard())
}

/// Relies on `bincode::serde::decode_from_slice` with the standard
/// configuration, reading a sequence of pairs of byte vectors at the start of
/// `b`.
#[verifier::external_body]
fn bincode_decode_pairs(b: &[u8]) -> (r: Result<
    (Vec<(Vec<u8>, Vec<u8>)>, usize),
    bincode::error::DecodeError,
>)
    ensures
        match r {
            Ok((v, n)) => dec_list(b@, pair_decoder()) == Some((v.deep_view(), n as nat)),
            Err(_) => dec_list(b@, pair_decoder()) is None,
        },
{
    bincode::serde::decode_from_slice(b, bincode::config::standard())
}

/// Relies on `bincode::serde::decode_from_slice` with the standard
/// configuration, reading a sequence of sequences of byte vectors at the start
/// of `b`.
#[verifier::external_body]
fn bincode_decode_rows(b: &[u8]) -> (r: Result<(Vec<Vec<Vec<u8>>>, usize), bincode::error::DecodeError>)
    ensures
        match r {
            Ok((v, n)) => dec_list(b@, row_decoder()) == Some((v.deep_view(), n as nat)),
            Err(_) => dec_list(b@, row_decoder()) is None,
        },
{
    bincode::serde::decode_from_slice(b, bincode::config::standard())
}

/// The text that lossy UTF-8 decoding makes of `b`.
pub uninterp spec fn lossy_utf8(b: Seq<u8>) -> Seq<char>;

/// Relies on `String::from_utf8_lossy`: the text depends on the bytes alone,
/// and valid UTF-8 is kept as it is.
#[verifier::external_body]
fn string_from_utf8_lossy(b: &[u8]) -> (r: String)
    ensures
        r@ == lossy_utf8(b@),
        valid_utf8(b@) ==> r@ == decode_utf8(b@),
{
    String::from_utf8_lossy(b).into_owned()
}

/// Turns bytes into text, each invalid sequence replaced by U+FFFD.
pub fn utf8_lossy(b: &[u8]) -> (r: String)
    ensures
        r@ == lossy_utf8(b@),
        valid_utf8(b@) ==> r@ == decode_utf8(b@),
{
    string_from_utf8_lossy(b)
}

/// Turns bytes into a string; `None` when they are not valid UTF-8.
pub fn utf8_string(b: Vec<u8>) -> (r: Option<String>)
    ensures
        match r {
            Some(s) => valid_utf8(b@) && s@ == decode_utf8(b@),
            None => !valid_utf8(b@),
        },
{
    string_from_utf8(b)
}

/// Encodes a list of ids for a component query.
pub fn encode_ids(ids: &Vec<String>) -> (r: Vec<u8>)
    ensures
        r@ == enc_ids(ids.deep_view()),
{
    bincode_encode_strings(ids)
}

/// Decodes a list of ids; trailing bytes are ignored.
pub fn decode_ids(b: &[u8]) -> (r: Result<Vec<String>, CodecError>)
    ensures
        match dec_ids(b@) {
            Some(ids) => r is Ok && r->Ok_0.deep_view() == ids,
            None => r is Err,
        },
        r == Err::<Vec<String>, CodecError>(CodecError::Malformed) <==> dec_list(
            b@,
            bytes_decoder(),
        ) is None,
{
    let xs = match bincode_decode_byte_list(b) {
        Ok((xs, _)) => xs,
        Err(_) => return Err(CodecError::Malformed),
    };
    let ghost xv = xs.deep_view();
    let mut out: Vec<String> = Vec::new();
    let mut i: usize = 0;
    while i < xs.len()
        invariant
            xv == xs.deep_view(),
            dec_list(b@, bytes_decoder()) is Some,
            dec_list(b@, bytes_decoder())->Some_0.0 == xv,
            i <= xs.len(),
            out@.len() == i,
            forall|j: int| 0 <= j < i ==> #[trigger] valid_utf8(xv[j]),
            forall|j: int| 0 <= j < i ==> #[trigger] out@[j]@ == decode_utf8(xv[j]),
        decreases xs.len() - i,
    {
        let x = xs[i].clone();
        assert(x@ =~= xv[i as int]);
        match string_from_utf8(x) {
            Some(s) => out.push(s),
            None => return Err(CodecError::InvalidUtf8(i)),
        }
        i += 1;
    }
    assert(out.deep_view() =~= xv.map_values(|x: Seq<u8>| decode_utf8(x)));
    Ok(out)
}

/// Encodes one id for a resource query.
pub fn encode_id(id: &String) -> (r: Vec<u8>)
    ensures
        r@ == enc_id(id@),
{
    bincode_encode_string(id)
}

/// Decodes one id; trailing bytes are ignored.
pub fn decode_id(b: &[u8]) -> (r: Result<String, CodecError>)
    ensures
        match dec_id(b@) {
            Some(id) => r is Ok && r->Ok_0@ == id,
            None => r is Err,
        },
        r == Err::<String, CodecError>(CodecError::Malformed) <==> dec_bytes(b@) is None,
{
    match bincode_decode_bytes(b) {
        Ok((x, _)) => match string_from_utf8(x) {
            Some(s) => Ok(s),
            None => Err(CodecError::InvalidUtf8(0)),
        },
        Err(_) => Err(CodecError::Malformed),
    }
}

/// Encodes a spawn payload: pairs of a component id and its encoded value.
pub fn encode_spawn_payload(pairs: &Vec<(String, Vec<u8>)>) -> (r: Vec<u8>)
    ensures
        r@ == enc_pairs(pairs.deep_view()),
{
    bincode_encode_pairs(pairs)
}

/// Decodes a spawn payload; trailing bytes are ignored.
pub fn decode_spawn_payload(b: &[u8]) -> (r: Result<Vec<(String, Vec<u8>)>, CodecError>)
    ensures
        match dec_pairs(b@) {
            Some(ps) => r is Ok && r->Ok_0.deep_view() == ps,
            None => r is Err,
        },
        r == Err::<Vec<(String, Vec<u8>)>, CodecError>(CodecError::Malformed) <==> dec_list(
            b@,
            pair_decoder(),
        ) is None,
{
    let xs = match bincode_decode_pairs(b) {
        Ok((xs, _)) => xs,
        Err(_) => return Err(CodecError::Malformed),
    };
    let ghost xv = xs.deep_view();
    let mut out: Vec<(String, Vec<u8>)> = Vec::new();
    let mut i: usize = 0;
    while i < xs.len()
        invariant
            xv == xs.deep_view(),
            dec_list(b@, pair_decoder()) is Some,
            dec_list(b@, pair_decoder())->Some_0.0 == xv,
            i <= xs.len(),
            out@.len() == i,
            forall|j: int| 0 <= j < i ==> #[trigger] valid_utf8(xv[j].0),
            forall|j: int|
                #![trigger out@[j]]
                0 <= j < i ==> out@[j].0@ == decode_utf8(xv[j].0) && out@[j].1@ == xv[j].1,
        decreases xs.len() - i,
    {
        let id = xs[i].0.clone();
        let data = xs[i].1.clone();
        assert(id@ =~= xv[i as int].0);
        assert(data@ =~= xv[i as int].1);
        match string_from_utf8(id) {
            Some(s) => out.push((s, data)),
            None => return Err(CodecError::InvalidUtf8(i)),
        }
        i += 1;
    }
    assert forall|j: int| 0 <= j < out@.len() implies #[trigger] out.deep_view()[j] == (
        decode_utf8(xv[j].0),
        xv[j].1,
    ) by {
        assert(out.deep_view()[j].1 =~= out@[j].1@);
    }
    assert(out.deep_view() =~= xv.map_values(|x: (Seq<u8>, Seq<u8>)| (decode_utf8(x.0), x.1)));
    Ok(out)
}

/// Decodes a spawn payload as pairs of byte strings, leaving the ids
/// unchecked; trailing bytes are ignored.
pub fn decode_pair_list(b: &[u8]) -> (r: Result<Vec<(Vec<u8>, Vec<u8>)>, CodecError>)
    ensures
        match dec_list(b@, pair_decoder()) {
            Some((xs, _)) => r is Ok && r->Ok_0.deep_view() == xs,
            None => r == Err::<Vec<(Vec<u8>, Vec<u8>)>, CodecError>(CodecError::Malformed),
        },
{
    match bincode_decode_pairs(b) {
        Ok((xs, _)) => Ok(xs),
        Err(_) => Err(CodecError::Malformed),
    }
}

/// Encodes a query response: one row of component blobs per entity.
pub fn encode_rows(rows: &Vec<Vec<Vec<u8>>>) -> (r: Vec<u8>)
    ensures
        r@ == enc_rows(rows.deep_view()),
{
    bincode_encode_rows(rows)
}

/// Decodes a query response; trailing bytes are ignored.
pub fn decode_rows(b: &[u8]) -> (r: Result<Vec<Vec<Vec<u8>>>, CodecError>)
    ensures
        match dec_rows(b@) {
            Some(rows) => r is Ok && r->Ok_0.deep_view() == rows,
            None => r == Err::<Vec<Vec<Vec<u8>>>, CodecError>(CodecError::Malformed),
        },
{
    match bincode_decode_rows(b) {
        Ok((rows, _)) => Ok(rows),
        Err(_) => Err(CodecError::Malformed),
    }
}

} // verus!
