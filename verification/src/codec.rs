//! The canonical binary records that keystores and signatures travel in.
//!
//! One record layout per value, versioned by the leading algorithm tag;
//! `spec_enc` and `spec_dec` define the format, and the executable
//! encoder and decoder are proved equal to them.  Decoding checks the
//! tag against the caller's expected algorithm first and re-validates
//! every cryptographic value; the Paillier precomputation is rebuilt,
//! never read from the wire.

use vstd::prelude::*;

use crate::algo::{Algorithm, CoreError, Curve, Scheme};
use crate::keystore::{
    check_dec, check_keystore, check_point, curve_order_val, point_wf, scalar_in_range, Keystore,
    KeystoreView, PaillierKey, PaillierKeyView, MISC_MAX,
};
use crate::nums::{
    append_bytes, be_bytes, bytes_val, clone_bytes, copy_range, dec_val, is_dec,
    lemma_be_bytes_len, lemma_be_bytes_val, lemma_bytes_val_bound, lemma_dec_of_val, pow256,
    read_u64_be, write_u64_be,
};
use crate::prim::{
    big_mul_dec, big_paillier_modulus, ed_point_add, ed_point_ok, ed_sum32, misc_from_pickle,
    misc_pickle, misc_to_pickle, misc_unpickle, sec1_point_ok, secp_point_add, secp_sum33,
    secp_xpub, secp_xpub_of,
};
use crate::sig::{Signature, SignatureView};

verus! {

/// Wire byte of a curve tag.
pub open spec fn curve_byte(c: Curve) -> u8 {
    match c {
        Curve::Secp256k1 => 1,
        Curve::Ed25519 => 2,
    }
}

/// Wire byte of a scheme tag.
pub open spec fn scheme_byte(s: Scheme) -> u8 {
    match s {
        Scheme::ElGamal => 1,
        Scheme::Schnorr => 2,
    }
}

/// The two-byte algorithm tag that opens every record.
pub open spec fn tag_seq(a: Algorithm) -> Seq<u8> {
    seq![curve_byte(a.curve), scheme_byte(a.scheme)]
}

/// Distinct algorithms have distinct tags.
pub proof fn lemma_tag_injective(a: Algorithm, b: Algorithm)
    requires
        tag_seq(a) == tag_seq(b),
    ensures
        a == b,
{
    assert(tag_seq(a)[0] == tag_seq(b)[0]);
    assert(tag_seq(a)[1] == tag_seq(b)[1]);
}

/// All byte strings of a sequence, joined in order.
pub open spec fn concat_all(ss: Seq<Seq<u8>>) -> Seq<u8>
    decreases ss.len(),
{
    if ss.len() == 0 {
        Seq::empty()
    } else {
        concat_all(ss.drop_last()) + ss.last()
    }
}

/// Joining strings of one width `w` gives length `len * w`, and chunk `k`
/// of the result is string `k`.
pub proof fn lemma_concat_all_uniform(ss: Seq<Seq<u8>>, w: nat)
    requires
        forall|t: int| 0 <= t < ss.len() ==> (#[trigger] ss[t]).len() == w,
    ensures
        concat_all(ss).len() == ss.len() * w,
        forall|k: int|
            0 <= k < ss.len() ==> concat_all(ss).subrange(k * w, k * w + w) == ss[k],
    decreases ss.len(),
{
    if ss.len() == 0 {
    } else {
        let front = ss.drop_last();
        let n = front.len() as int;
        lemma_concat_all_uniform(front, w);
        assert(ss.len() * w == n * w + w) by {
            vstd::arithmetic::mul::lemma_mul_is_distributive_add_other_way(
                w as int,
                n,
                1,
            );
        }
        assert forall|k: int| 0 <= k < ss.len() implies concat_all(ss).subrange(
            k * w,
            k * w + w,
        ) == ss[k] by {
            vstd::arithmetic::mul::lemma_mul_nonnegative(k, w as int);
            assert(k * w + w <= ss.len() * w) by {
                vstd::arithmetic::mul::lemma_mul_inequality(k + 1, ss.len() as int, w as int);
                vstd::arithmetic::mul::lemma_mul_is_distributive_add_other_way(w as int, k, 1);
            }
            if k < ss.len() - 1 {
                assert(k * w + w <= n * w) by {
                    vstd::arithmetic::mul::lemma_mul_inequality(k + 1, n, w as int);
                    vstd::arithmetic::mul::lemma_mul_is_distributive_add_other_way(
                        w as int,
                        k,
                        1,
                    );
                }
                assert(concat_all(ss).subrange(k * w, k * w + w) =~= concat_all(front).subrange(
                    k * w,
                    k * w + w,
                ));
                assert(concat_all(front).subrange(k * w, k * w + w) == front[k]);
            } else {
                assert(k == ss.len() - 1);
                assert(k * w == concat_all(front).len());
                assert(concat_all(ss).subrange(k * w, k * w + w) =~= ss.last());
            }
        }
    }
}

/// The commitment table flattened row-major: every point of party 1,
/// then every point of party 2, and so on.
pub open spec fn points_flat(table: Seq<Seq<Seq<u8>>>) -> Seq<u8> {
    concat_all(table.map_values(|row: Seq<Seq<u8>>| concat_all(row)))
}

/// The running aggregate of the first `i` parties' first commitments:
/// the sum of the coefficient-0 points of parties 1 through `i`.
pub open spec fn agg_acc(table: Seq<Seq<Seq<u8>>>, c: Curve, i: int) -> Option<Seq<u8>>
    decreases i,
{
    if i <= 0 {
        None
    } else if i == 1 {
        Some(table[0][0])
    } else {
        match agg_acc(table, c, i - 1) {
            None => None,
            Some(acc) => match c {
                Curve::Secp256k1 => secp_sum33(acc, table[i - 1][0]),
                Curve::Ed25519 => if ed_point_ok(acc) && ed_point_ok(table[i - 1][0]) {
                    Some(ed_sum32(acc, table[i - 1][0]))
                } else {
                    None
                },
            },
        }
    }
}

/// The aggregate public point a keystore's commitment table implies.
pub open spec fn agg_point(v: KeystoreView) -> Option<Seq<u8>> {
    agg_acc(v.commitment_table, v.algorithm.curve, v.commitment_table.len() as int)
}

/// Lowercase hex digit of a value below 16.
pub open spec fn hex_digit(n: u8) -> u8 {
    if n < 10 {
        (48 + n) as u8
    } else {
        (87 + n) as u8
    }
}

/// Lowercase hex spelling of a byte string, two digits per byte.
pub open spec fn hex_seq(s: Seq<u8>) -> Seq<u8>
    decreases s.len(),
{
    if s.len() == 0 {
        Seq::empty()
    } else {
        hex_seq(s.drop_last()) + seq![hex_digit(s.last() / 16), hex_digit(s.last() % 16)]
    }
}

/// The extended-public-key field a keystore is encoded with, derived from
/// the aggregate point: the Base58Check `xpub` form for the secp256k1
/// family, the hex spelling of the compressed aggregate point for the
/// Edwards curve, and empty when no aggregate exists.
pub open spec fn xpub_field(v: KeystoreView) -> Seq<u8> {
    match agg_point(v) {
        None => Seq::empty(),
        Some(p) => match v.algorithm.curve {
            Curve::Secp256k1 => if sec1_point_ok(p) {
                secp_xpub_of(p)
            } else {
                Seq::empty()
            },
            Curve::Ed25519 => hex_seq(p),
        },
    }
}

/// The opaque blob the Paillier material travels in: the pickle of the
/// prime pair and the peer moduli for the Paillier-assisted scheme, empty
/// otherwise.
pub open spec fn misc_field(v: KeystoreView) -> Seq<u8> {
    match v.paillier {
        Some(pk) => misc_pickle(pk.p, pk.q, v.peer_moduli),
        None => Seq::empty(),
    }
}

/// The canonical binary record of a keystore.
pub open spec fn spec_enc(v: KeystoreView) -> Seq<u8> {
    tag_seq(v.algorithm) + be_bytes(v.party_index as nat, 8) + v.ui + v.xi + be_bytes(
        v.commitment_table.len(),
        8,
    ) + be_bytes(v.n_coms(), 8) + points_flat(v.commitment_table) + be_bytes(
        misc_field(v).len(),
        8,
    ) + misc_field(v) + be_bytes(xpub_field(v).len(), 8) + xpub_field(v)
}

/// What decoding a byte string as a keystore of `expected` yields: the
/// record's fields, or the first failing check's error.  The trailing
/// extended-public-key field is informational output of the encoder and
/// is only length-checked here, never interpreted.
pub open spec fn spec_dec(b: Seq<u8>, expected: Algorithm) -> Result<KeystoreView, CoreError> {
    let plen = expected.spec_point_len();
    if b.len() < 2 || b.subrange(0, 2) != tag_seq(expected) {
        Err(CoreError::AlgorithmMismatch)
    } else if b.len() < 90 {
        Err(CoreError::MalformedLegacyRecord)
    } else {
        let pi = bytes_val(b.subrange(2, 10));
        let ui = b.subrange(10, 42);
        let xi = b.subrange(42, 74);
        let np = bytes_val(b.subrange(74, 82));
        let nc = bytes_val(b.subrange(82, 90));
        if !(1 <= pi <= np && nc >= 1) {
            Err(CoreError::MalformedLegacyRecord)
        } else if b.len() < 90 + np * nc * plen + 8 {
            Err(CoreError::MalformedLegacyRecord)
        } else if !(bytes_val(ui) < curve_order_val(expected.curve) && bytes_val(xi)
            < curve_order_val(expected.curve)) {
            Err(CoreError::InvalidScalarLength)
        } else {
            let table = Seq::new(
                np,
                |i: int|
                    Seq::new(
                        nc,
                        |j: int|
                            b.subrange(
                                90 + (i * nc + j) * plen,
                                90 + (i * nc + j) * plen + plen,
                            ),
                    ),
            );
            if !(forall|i: int, j: int|
                0 <= i < np && 0 <= j < nc ==> point_wf(#[trigger] table[i][j], expected.curve)) {
                Err(CoreError::NotOnCurve)
            } else {
                let moff = 90 + np * nc * plen;
                let mlen = bytes_val(b.subrange(moff as int, moff as int + 8));
                if mlen > MISC_MAX || b.len() < moff + 8 + mlen + 8 {
                    Err(CoreError::MalformedLegacyRecord)
                } else {
                    let misc = b.subrange(moff as int + 8, moff as int + 8 + mlen as int);
                    let xoff = moff + 8 + mlen;
                    let xlen = bytes_val(b.subrange(xoff as int, xoff as int + 8));
                    if b.len() != xoff + 8 + xlen {
                        Err(CoreError::MalformedLegacyRecord)
                    } else if expected.spec_has_paillier() {
                        match misc_unpickle(misc) {
                            None => Err(CoreError::InvalidModulus),
                            Some((p, q, ns)) => if !PaillierKeyView::import_ok(p, q) {
                                Err(CoreError::InvalidModulus)
                            } else if !(ns.len() == np && forall|t: int|
                                0 <= t < ns.len() ==> is_dec(#[trigger] ns[t])) {
                                Err(CoreError::InvalidModulus)
                            } else if misc_pickle(p, q, ns).len() > MISC_MAX {
                                Err(CoreError::InvalidModulus)
                            } else {
                                Ok(
                                    KeystoreView {
                                        party_index: pi as u64,
                                        ui,
                                        xi,
                                        commitment_table: table,
                                        paillier: Some(PaillierKeyView::import_of(p, q)),
                                        peer_moduli: ns,
                                        algorithm: expected,
                                    },
                                )
                            },
                        }
                    } else {
                        if mlen != 0 {
                            Err(CoreError::InvalidModulus)
                        } else {
                            Ok(
                                KeystoreView {
                                    party_index: pi as u64,
                                    ui,
                                    xi,
                                    commitment_table: table,
                                    paillier: None,
                                    peer_moduli: Seq::empty(),
                                    algorithm: expected,
                                },
                            )
                        }
                    }
                }
            }
        }
    }
}

/// Lowercase hex spelling of a byte string.
pub fn hex_bytes(s: &Vec<u8>) -> (r: Vec<u8>)
    ensures
        r@ == hex_seq(s@),
{
    let mut out: Vec<u8> = Vec::new();
    let mut i: usize = 0;
    while i < s.len()
        invariant
            0 <= i <= s@.len(),
            out@ =~= hex_seq(s@.subrange(0, i as int)),
        decreases s.len() - i,
    {
        let hi = s[i] / 16;
        let lo = s[i] % 16;
        out.push(if hi < 10 { 48 + hi } else { 87 + hi });
        out.push(if lo < 10 { 48 + lo } else { 87 + lo });
        proof {
            let pre = s@.subrange(0, i as int);
            let cur = s@.subrange(0, i as int + 1);
            assert(cur.drop_last() =~= pre);
            assert(cur.last() == s@[i as int]);
            assert(out@ =~= hex_seq(cur));
        }
        i += 1;
    }
    proof {
        assert(s@.subrange(0, s@.len() as int) =~= s@);
    }
    out
}

/// The extended-public-key field of a well-formed keystore: the
/// aggregate of the coefficient-0 commitments, packaged by the curve's
/// derivation rule; empty when the aggregate degenerates.
fn compute_xpub(k: &Keystore) -> (r: Vec<u8>)
    requires
        k@.wf(),
    ensures
        r@ == xpub_field(k@),
{
    let ghost v = k@;
    let ghost table = v.commitment_table;
    let ghost c = v.algorithm.curve;
    let n = k.commitment_table.len();
    let mut acc: Option<Vec<u8>> = Some(clone_bytes(&k.commitment_table[0][0]));
    let mut i: usize = 1;
    proof {
        assert(agg_acc(table, c, 1) == Some(table[0][0]));
    }
    while i < n
        invariant
            1 <= i <= n,
            n == table.len(),
            v == k@,
            v.wf(),
            table == v.commitment_table,
            c == v.algorithm.curve,
            match acc {
                Some(a) => agg_acc(table, c, i as int) == Some(a@),
                None => agg_acc(table, c, i as int) is None,
            },
        decreases n - i,
    {
        let next: Option<Vec<u8>> = match &acc {
            None => None,
            Some(a) => {
                proof {
                    assert(v.commitment_table[i as int][0] == k.commitment_table@[i as int]@[0]@);
                }
                match k.algorithm.curve {
                    Curve::Secp256k1 => secp_point_add(
                        a.as_slice(),
                        k.commitment_table[i][0].as_slice(),
                    ),
                    Curve::Ed25519 => ed_point_add(
                        a.as_slice(),
                        k.commitment_table[i][0].as_slice(),
                    ),
                }
            },
        };
        acc = next;
        i += 1;
    }
    match &acc {
        None => Vec::new(),
        Some(p) => {
            match k.algorithm.curve {
                Curve::Secp256k1 => {
                    match secp_xpub(p.as_slice()) {
                        Some(x) => x,
                        None => Vec::new(),
                    }
                },
                Curve::Ed25519 => hex_bytes(p),
            }
        },
    }
}

/// Encode a keystore as its canonical binary record.
///
/// Succeeds exactly on well-formed keystores; the record then decodes
/// back to the same keystore under the same algorithm, Paillier
/// precomputation rebuilt and all.
pub fn encode_keystore(k: &Keystore) -> (res: Result<Vec<u8>, CoreError>)
    ensures
        (res is Ok) == k@.wf(),
        res matches Ok(b) ==> b@ == spec_enc(k@) && spec_dec(b@, k@.algorithm) == Ok::<
            KeystoreView,
            CoreError,
        >(k@),
        res matches Err(e) ==> e == k@.construct_err(),
{
    match check_keystore(k) {
        Ok(()) => (),
        Err(e) => {
            return Err(e);
        },
    }
    let ghost v = k@;
    let mut out: Vec<u8> = Vec::new();
    match k.algorithm.curve {
        Curve::Secp256k1 => out.push(1u8),
        Curve::Ed25519 => out.push(2u8),
    }
    match k.algorithm.scheme {
        Scheme::ElGamal => out.push(1u8),
        Scheme::Schnorr => out.push(2u8),
    }
    proof {
        assert(out@ =~= tag_seq(v.algorithm));
    }
    write_u64_be(&mut out, k.party_index);
    append_bytes(&mut out, &k.ui);
    append_bytes(&mut out, &k.xi);
    write_u64_be(&mut out, k.commitment_table.len() as u64);
    write_u64_be(&mut out, k.commitment_table[0].len() as u64);
    let ghost head = out@;
    let ghost rows = v.commitment_table.map_values(|row: Seq<Seq<u8>>| concat_all(row));
    // Points, row-major.
    let mut i: usize = 0;
    while i < k.commitment_table.len()
        invariant
            0 <= i <= k.commitment_table.len(),
            v == k@,
            v.wf(),
            rows == v.commitment_table.map_values(|row: Seq<Seq<u8>>| concat_all(row)),
            out@ =~= head + concat_all(rows.subrange(0, i as int)),
        decreases k.commitment_table.len() - i,
    {
        let row = &k.commitment_table[i];
        let ghost rowflat = concat_all(v.commitment_table[i as int]);
        let ghost base = out@;
        let mut j: usize = 0;
        while j < row.len()
            invariant
                0 <= j <= row@.len(),
                v == k@,
                0 <= i < k.commitment_table@.len(),
                row == k.commitment_table@[i as int],
                rowflat == concat_all(v.commitment_table[i as int]),
                out@ =~= base + concat_all(
                    v.commitment_table[i as int].subrange(0, j as int),
                ),
            decreases row.len() - j,
        {
            append_bytes(&mut out, &row[j]);
            proof {
                let pts = v.commitment_table[i as int];
                let cur = pts.subrange(0, j as int + 1);
                assert(cur.drop_last() =~= pts.subrange(0, j as int));
                assert(cur.last() == pts[j as int]);
                assert(pts[j as int] == row@[j as int]@);
                assert(out@ =~= base + concat_all(cur));
            }
            j += 1;
        }
        proof {
            let pts = v.commitment_table[i as int];
            assert(pts.subrange(0, pts.len() as int) =~= pts);
            assert(out@ =~= base + rowflat);
            let cur = rows.subrange(0, i as int + 1);
            assert(cur.drop_last() =~= rows.subrange(0, i as int));
            assert(cur.last() == rows[i as int]);
            assert(rows[i as int] == rowflat);
            assert(out@ =~= head + concat_all(cur));
        }
        i += 1;
    }
    proof {
        assert(rows.subrange(0, rows.len() as int) =~= rows);
        assert(out@ =~= head + points_flat(v.commitment_table));
    }
    // Paillier blob.
    let misc: Vec<u8> = match &k.paillier {
        Some(pk) => misc_to_pickle(&pk.p, &pk.q, &k.peer_moduli),
        None => Vec::new(),
    };
    proof {
        match v.paillier {
            Some(pkv) => {
                assert(k.peer_moduli.deep_view() == v.peer_moduli);
                assert(misc@ == misc_field(v));
            },
            None => {
                assert(misc@ =~= misc_field(v));
            },
        }
    }
    write_u64_be(&mut out, misc.len() as u64);
    append_bytes(&mut out, &misc);
    // Derived extended public key.
    let xp = compute_xpub(k);
    write_u64_be(&mut out, xp.len() as u64);
    append_bytes(&mut out, &xp);
    proof {
        assert(out@ =~= spec_enc(v));
        assert(v.n_coms() < 0x10000000000000000);
        lemma_enc_dec(v, out@);
    }
    Ok(out)
}

/// A window of a byte string, shifted: slicing inside a known window of
/// `full` is slicing the window.
proof fn lemma_subrange_shift(full: Seq<u8>, s: int, inner: Seq<u8>, a: int, c: int)
    requires
        0 <= s,
        s + inner.len() <= full.len(),
        full.subrange(s, s + inner.len()) == inner,
        0 <= a <= c <= inner.len(),
    ensures
        full.subrange(s + a, s + c) == inner.subrange(a, c),
{
    assert(full.subrange(s + a, s + c) =~= inner.subrange(a, c));
}

/// Round trip of the keystore record: the record of a well-formed
/// keystore decodes back to the keystore under its own algorithm,
/// provided the pickle of the Paillier material reads back unchanged —
/// which the encoder's trusted blob writer establishes at every call.
proof fn lemma_enc_dec(v: KeystoreView, b: Seq<u8>)
    requires
        v.wf(),
        b == spec_enc(v),
        v.commitment_table.len() < 0x10000000000000000,
        v.n_coms() < 0x10000000000000000,
        misc_field(v).len() < 0x10000000000000000,
        xpub_field(v).len() < 0x10000000000000000,
        v.paillier matches Some(pk) ==> misc_unpickle(misc_pickle(pk.p, pk.q, v.peer_moduli))
            == Some((pk.p, pk.q, v.peer_moduli)),
    ensures
        spec_dec(b, v.algorithm) == Ok::<KeystoreView, CoreError>(v),
{
    reveal_with_fuel(pow256, 9);
    let plen = v.algorithm.spec_point_len();
    let np = v.commitment_table.len();
    let nc = v.n_coms();
    let t = tag_seq(v.algorithm);
    let pib = be_bytes(v.party_index as nat, 8);
    let npb = be_bytes(np, 8);
    let ncb = be_bytes(nc, 8);
    let rows = v.commitment_table.map_values(|row: Seq<Seq<u8>>| concat_all(row));
    let pts = points_flat(v.commitment_table);
    let mf = misc_field(v);
    let mlb = be_bytes(mf.len(), 8);
    let xf = xpub_field(v);
    let xlb = be_bytes(xf.len(), 8);
    lemma_be_bytes_len(v.party_index as nat, 8);
    lemma_be_bytes_len(np, 8);
    lemma_be_bytes_len(nc, 8);
    lemma_be_bytes_len(mf.len(), 8);
    lemma_be_bytes_len(xf.len(), 8);
    // Row widths.
    assert forall|i: int| 0 <= i < np implies (#[trigger] rows[i]).len() == nc * plen by {
        lemma_concat_all_uniform(v.commitment_table[i], plen);
    }
    lemma_concat_all_uniform(rows, nc * plen);
    let pw = np * (nc * plen);
    assert(pts.len() == pw);
    assert(pw == np * nc * plen) by {
        vstd::arithmetic::mul::lemma_mul_is_associative(np as int, nc as int, plen as int);
    }
    let o7 = 90 + pts.len() as int;
    let o9 = o7 + 8 + mf.len() as int;
    let end = o9 + 8 + xf.len() as int;
    assert(b.len() == end);
    // Each region of the record.
    assert(b.subrange(0, 2) =~= t);
    assert(b.subrange(2, 10) =~= pib);
    assert(b.subrange(10, 42) =~= v.ui);
    assert(b.subrange(42, 74) =~= v.xi);
    assert(b.subrange(74, 82) =~= npb);
    assert(b.subrange(82, 90) =~= ncb);
    assert(b.subrange(90, o7) =~= pts);
    assert(b.subrange(o7, o7 + 8) =~= mlb);
    assert(b.subrange(o7 + 8, o9) =~= mf);
    assert(b.subrange(o9, o9 + 8) =~= xlb);
    // Header values.
    lemma_be_bytes_val(v.party_index as nat, 8);
    lemma_be_bytes_val(np, 8);
    lemma_be_bytes_val(nc, 8);
    lemma_be_bytes_val(mf.len(), 8);
    lemma_be_bytes_val(xf.len(), 8);
    let pi = bytes_val(b.subrange(2, 10));
    assert(pi == v.party_index as nat);
    assert(bytes_val(b.subrange(74, 82)) == np);
    assert(bytes_val(b.subrange(82, 90)) == nc);
    assert(1 <= pi <= np && nc >= 1);
    assert(!(b.len() < 90 + np * nc * plen + 8));
    // The decoded table is the keystore's table.
    let table = Seq::new(
        np,
        |i: int|
            Seq::new(
                nc,
                |j: int| b.subrange(90 + (i * nc + j) * plen, 90 + (i * nc + j) * plen + plen),
            ),
    );
    assert forall|i: int, j: int| 0 <= i < np && 0 <= j < nc implies #[trigger] table[i][j]
        == v.commitment_table[i][j] by {
        let w = nc * plen;
        assert(pts.subrange(i * w, i * w + w) == rows[i]);
        assert(rows[i] == concat_all(v.commitment_table[i]));
        lemma_concat_all_uniform(v.commitment_table[i], plen);
        assert(rows[i].subrange(j * plen, j * plen + plen) == v.commitment_table[i][j]);
        assert(0 <= i * w && i * w + w <= pts.len()) by (nonlinear_arith)
            requires
                0 <= i < np,
                w >= 0,
                pts.len() == np * w,
        ;
        assert(0 <= j * plen && j * plen + plen <= w) by (nonlinear_arith)
            requires
                0 <= j < nc,
                plen >= 0,
                w == nc * plen,
        ;
        lemma_subrange_shift(b, 90, pts, i * w, i * w + w);
        assert(b.subrange(90 + i * w, 90 + i * w + w) == rows[i]);
        lemma_subrange_shift(b, 90 + i * w, rows[i], j * plen, j * plen + plen);
        assert(b.subrange(90 + i * w + j * plen, 90 + i * w + j * plen + plen)
            == v.commitment_table[i][j]);
        assert((i * nc + j) * plen == i * w + j * plen) by (nonlinear_arith)
            requires
                w == nc * plen,
        ;
    }
    assert(table =~~= v.commitment_table);
    // Blob region values.
    let moff = 90 + np * nc * plen;
    assert(moff == o7);
    let mlen = bytes_val(b.subrange(o7, o7 + 8));
    assert(mlen == mf.len());
    assert(!(b.len() < moff + 8 + mlen + 8));
    let xoff = moff + 8 + mlen;
    assert(xoff == o9);
    let xlen = bytes_val(b.subrange(o9, o9 + 8));
    assert(xlen == xf.len());
    assert(b.len() == xoff + 8 + xlen);
    // The two scheme branches.
    match v.paillier {
        Some(pk) => {
            assert(v.algorithm.spec_has_paillier());
            assert(misc_unpickle(mf) == Some((pk.p, pk.q, v.peer_moduli)));
            assert(PaillierKeyView::import_ok(pk.p, pk.q));
            assert(PaillierKeyView::import_of(pk.p, pk.q) == pk);
            assert(v.peer_moduli.len() == np);
            let dec = spec_dec(b, v.algorithm);
            assert(dec is Ok);
            let w = dec.unwrap();
            assert(w.party_index == v.party_index);
            assert(w.ui == v.ui && w.xi == v.xi);
            assert(w.commitment_table == v.commitment_table);
            assert(w.paillier == v.paillier);
            assert(w.peer_moduli == v.peer_moduli);
            assert(w == v);
        },
        None => {
            assert(!v.algorithm.spec_has_paillier());
            assert(mf =~= Seq::<u8>::empty());
            assert(mlen == 0);
            let dec = spec_dec(b, v.algorithm);
            assert(dec is Ok);
            let w = dec.unwrap();
            assert(w.peer_moduli =~= v.peer_moduli);
            assert(w == v);
        },
    }
}

/// Decode the canonical binary record of a keystore, checking the
/// embedded algorithm tag against `expected` before anything else.
///
/// Returns exactly what `spec_dec` says: the record's keystore, with the
/// Paillier precomputation rebuilt, or the first failing check's error.
/// Every decoded keystore is well-formed.  The Paillier blob region is
/// rejected before it is ever read when it exceeds the size bound, so a
/// hostile record cannot make the pickle reader do unbounded work.
#[verifier::loop_isolation(false)]
#[verifier::rlimit(100)]
pub fn decode_keystore(b: &Vec<u8>, expected: Algorithm) -> (res: Result<Keystore, CoreError>)
    ensures
        res matches Ok(k) ==> spec_dec(b@, expected) == Ok::<KeystoreView, CoreError>(k@)
            && k@.wf() && k@.algorithm == expected,
        res matches Err(e) ==> spec_dec(b@, expected) == Err::<KeystoreView, CoreError>(e),
{
    let ghost bs = b@;
    let plen = expected.point_len();
    let blen = b.len();
    if blen < 2 {
        return Err(CoreError::AlgorithmMismatch);
    }
    let cb: u8 = match expected.curve {
        Curve::Secp256k1 => 1,
        Curve::Ed25519 => 2,
    };
    let sb: u8 = match expected.scheme {
        Scheme::ElGamal => 1,
        Scheme::Schnorr => 2,
    };
    if b[0] != cb || b[1] != sb {
        proof {
            assert(bs.subrange(0, 2)[0] == bs[0]);
            assert(bs.subrange(0, 2)[1] == bs[1]);
            assert(bs.subrange(0, 2) != tag_seq(expected));
        }
        return Err(CoreError::AlgorithmMismatch);
    }
    proof {
        assert(bs.subrange(0, 2) =~= tag_seq(expected));
    }
    if blen < 90 {
        return Err(CoreError::MalformedLegacyRecord);
    }
    let pi64 = read_u64_be(b, 2);
    proof {
        lemma_bytes_val_bound(bs.subrange(2, 10));
        reveal_with_fuel(pow256, 9);
        assert(bytes_val(bs.subrange(2, 10)) < 0x10000000000000000);
        assert(pi64 as nat == bytes_val(bs.subrange(2, 10)));
    }
    let np64 = read_u64_be(b, 74);
    let nc64 = read_u64_be(b, 82);
    let ghost np = bytes_val(bs.subrange(74, 82));
    let ghost nc = bytes_val(bs.subrange(82, 90));
    if pi64 == 0 || pi64 > np64 || nc64 == 0 {
        return Err(CoreError::MalformedLegacyRecord);
    }
    // Size of the points region, without overflow.
    if np64 > blen as u64 {
        proof {
            assert(np * nc * plen >= np * 1 * 1) by (nonlinear_arith)
                requires
                    nc >= 1,
                    plen >= 1,
                    np >= 0,
            ;
            assert(bs.len() < 90 + np * nc * plen + 8);
        }
        return Err(CoreError::MalformedLegacyRecord);
    }
    if nc64 > blen as u64 {
        proof {
            assert(np * nc * plen >= nc) by (nonlinear_arith)
                requires
                    np >= 1,
                    plen >= 1,
                    nc >= 0,
            ;
            assert(bs.len() < 90 + np * nc * plen + 8);
        }
        return Err(CoreError::MalformedLegacyRecord);
    }
    proof {
        assert((np64 as int) * (nc64 as int) <= (blen as int) * (blen as int))
            by (nonlinear_arith)
            requires
                np64 <= blen,
                nc64 <= blen,
        ;
        assert((blen as int) * (blen as int) < 0x100000000000000000000000000000000)
            by (nonlinear_arith)
            requires
                blen < 0x10000000000000000,
        ;
    }
    let prod1: u128 = (np64 as u128) * (nc64 as u128);
    if prod1 > blen as u128 {
        proof {
            assert(np * nc * plen >= np * nc) by (nonlinear_arith)
                requires
                    plen >= 1,
                    np >= 0,
                    nc >= 0,
            ;
            assert(bs.len() < 90 + np * nc * plen + 8);
        }
        return Err(CoreError::MalformedLegacyRecord);
    }
    proof {
        assert((prod1 as int) * (plen as int) <= (blen as int) * 33) by (nonlinear_arith)
            requires
                prod1 <= blen,
                0 <= plen <= 33,
        ;
    }
    let need: u128 = prod1 * (plen as u128);
    if (blen as u128) < 90 + need + 8 {
        return Err(CoreError::MalformedLegacyRecord);
    }
    let pts_len: usize = need as usize;
    proof {
        assert(pts_len == np * nc * plen);
        assert(90 + pts_len + 8 <= blen);
    }
    // Scalars.
    let ui = copy_range(b, 10, 42);
    let xi = copy_range(b, 42, 74);
    if !scalar_in_range(&ui, &expected.curve) || !scalar_in_range(&xi, &expected.curve) {
        return Err(CoreError::InvalidScalarLength);
    }
    // Points, row-major.
    let ghost full_table = Seq::new(
        np,
        |i: int|
            Seq::new(
                nc,
                |j: int|
                    bs.subrange(90 + (i * nc + j) * plen, 90 + (i * nc + j) * plen + plen),
            ),
    );
    proof {
        assert(np64 <= usize::MAX as u64 && nc64 <= usize::MAX as u64);
    }
    let np_us = np64 as usize;
    let nc_us = nc64 as usize;
    let mut table: Vec<Vec<Vec<u8>>> = Vec::new();
    let mut cursor: usize = 90;
    let mut i: usize = 0;
    while i < np_us
        invariant
            0 <= i <= np_us,
            np_us == np,
            nc_us == nc,
            nc >= 1,
            plen == expected.spec_point_len(),
            bs == b@,
            blen == bs.len(),
            90 + np * nc * plen + 8 <= blen,
            cursor == 90 + i * nc * plen,
            cursor <= 90 + np * nc * plen,
            full_table == Seq::new(
                np,
                |t: int|
                    Seq::new(
                        nc,
                        |u: int|
                            bs.subrange(
                                90 + (t * nc + u) * plen,
                                90 + (t * nc + u) * plen + plen,
                            ),
                    ),
            ),
            table.deep_view() == full_table.subrange(0, i as int),
            forall|t: int, u: int|
                0 <= t < i && 0 <= u < nc ==> point_wf(#[trigger] full_table[t][u], expected.curve),
        decreases np_us - i,
    {
        proof {
            assert((i + 1) * (nc * plen) <= np * (nc * plen)) by (nonlinear_arith)
                requires
                    i + 1 <= np,
                    nc >= 0,
                    plen >= 0,
            ;
            assert(i * nc * plen == i * (nc * plen) && (i + 1) * (nc * plen) == i * (nc * plen)
                + nc * plen && np * (nc * plen) == np * nc * plen) by (nonlinear_arith);
        }
        let mut row: Vec<Vec<u8>> = Vec::new();
        let mut j: usize = 0;
        while j < nc_us
            invariant
                0 <= j <= nc_us,
                0 <= i < np_us,
                np_us == np,
                nc_us == nc,
                plen == expected.spec_point_len(),
                bs == b@,
                blen == bs.len(),
                90 + np * nc * plen + 8 <= blen,
                cursor == 90 + (i * nc + j) * plen,
                cursor + (nc - j) * plen <= 90 + np * nc * plen,
                full_table == Seq::new(
                    np,
                    |t: int|
                        Seq::new(
                            nc,
                            |u: int|
                                bs.subrange(
                                    90 + (t * nc + u) * plen,
                                    90 + (t * nc + u) * plen + plen,
                                ),
                        ),
                ),
                row.deep_view() == full_table[i as int].subrange(0, j as int),
                forall|u: int|
                    0 <= u < j ==> point_wf(#[trigger] full_table[i as int][u], expected.curve),
            decreases nc_us - j,
        {
            proof {
                assert((nc - j) * plen >= 1 * plen) by (nonlinear_arith)
                    requires
                        j < nc,
                        plen >= 0,
                ;
            }
            let pt = copy_range(b, cursor, cursor + plen);
            proof {
                assert(full_table[i as int][j as int] == pt@);
            }
            if !check_point(&pt, &expected.curve) {
                proof {
                    assert(!point_wf(full_table[i as int][j as int], expected.curve));
                }
                return Err(CoreError::NotOnCurve);
            }
            proof {
                assert(pt.deep_view() =~= pt@);
            }
            row.push(pt);
            cursor = cursor + plen;
            proof {
                assert(row.deep_view() =~= full_table[i as int].subrange(0, j as int + 1));
                assert((i * nc + j + 1) * plen == (i * nc + j) * plen + plen) by (nonlinear_arith);
                assert((nc - j) * plen == plen + (nc - (j + 1)) * plen) by (nonlinear_arith);
            }
            j += 1;
        }
        proof {
            assert(full_table[i as int].subrange(0, nc as int) =~= full_table[i as int]);
            assert(row.deep_view() == full_table[i as int]);
        }
        table.push(row);
        proof {
            assert(table.deep_view() =~= full_table.subrange(0, i as int + 1));
            assert((i * nc + nc) * plen == (i + 1) * nc * plen) by (nonlinear_arith);
            assert((i + 1) * nc * plen <= np * nc * plen) by (nonlinear_arith)
                requires
                    i + 1 <= np,
                    nc >= 0,
                    plen >= 0,
            ;
        }
        i += 1;
    }
    proof {
        assert(table.deep_view() =~= full_table);
        assert(cursor == 90 + np * nc * plen) by (nonlinear_arith)
            requires
                cursor == 90 + np * nc * plen || cursor == 90 + np * (nc * plen),
        ;
    }
    let moff = cursor;
    let mlen64 = read_u64_be(b, moff);
    let ghost mlen = bytes_val(bs.subrange(moff as int, moff as int + 8));
    if mlen64 > MISC_MAX as u64 || (blen as u128) < (moff as u128) + 8 + (mlen64 as u128) + 8 {
        return Err(CoreError::MalformedLegacyRecord);
    }
    let mlen_us = mlen64 as usize;
    let misc = copy_range(b, moff + 8, moff + 8 + mlen_us);
    let xoff = moff + 8 + mlen_us;
    let xlen64 = read_u64_be(b, xoff);
    if (blen as u128) != (xoff as u128) + 8 + (xlen64 as u128) {
        return Err(CoreError::MalformedLegacyRecord);
    }
    if expected.has_paillier() {
        let (p, q, ns) = match misc_from_pickle(misc.as_slice()) {
            None => {
                return Err(CoreError::InvalidModulus);
            },
            Some(t) => t,
        };
        if !check_dec(&p) || !check_dec(&q) {
            return Err(CoreError::InvalidModulus);
        }
        let n = match big_paillier_modulus(p.as_slice(), q.as_slice()) {
            None => {
                return Err(CoreError::InvalidModulus);
            },
            Some(n) => n,
        };
        proof {
            lemma_dec_of_val(dec_val(p@) * dec_val(q@));
        }
        let nn = big_mul_dec(n.as_slice(), n.as_slice());
        if ns.len() as u64 != np64 {
            return Err(CoreError::InvalidModulus);
        }
        let ghost nsv = ns.deep_view();
        let mut t: usize = 0;
        while t < ns.len()
            invariant
                0 <= t <= ns.len(),
                nsv == ns.deep_view(),
                forall|u: int| 0 <= u < t ==> is_dec(#[trigger] nsv[u]),
            decreases ns.len() - t,
        {
            if !check_dec(&ns[t]) {
                proof {
                    assert(nsv[t as int] == ns@[t as int]@);
                }
                return Err(CoreError::InvalidModulus);
            }
            proof {
                assert(nsv[t as int] == ns@[t as int]@);
            }
            t += 1;
        }
        let blob = misc_to_pickle(&p, &q, &ns);
        if blob.len() > MISC_MAX {
            return Err(CoreError::InvalidModulus);
        }
        let pk = PaillierKey { p, q, n, nn };
        let ks = Keystore {
            party_index: pi64,
            ui,
            xi,
            commitment_table: table,
            paillier: Some(pk),
            peer_moduli: ns,
            algorithm: expected,
        };
        proof {
            assert(pk@ == PaillierKeyView::import_of(pk.p@, pk.q@));
            assert(ks@.party_index as nat == bytes_val(bs.subrange(2, 10)));
            assert(ks@.commitment_table == full_table);
            assert(ks@.ui == bs.subrange(10, 42) && ks@.xi == bs.subrange(42, 74));
            assert(ks@.peer_moduli == nsv);
            assert(spec_dec(bs, expected) == Ok::<KeystoreView, CoreError>(ks@));
            assert(ks@.wf());
        }
        Ok(ks)
    } else {
        if mlen_us != 0 {
            return Err(CoreError::InvalidModulus);
        }
        let ks = Keystore {
            party_index: pi64,
            ui,
            xi,
            commitment_table: table,
            paillier: None,
            peer_moduli: Vec::new(),
            algorithm: expected,
        };
        proof {
            assert(ks@.party_index as nat == bytes_val(bs.subrange(2, 10)));
            assert(ks@.commitment_table == full_table);
            assert(ks@.peer_moduli =~= Seq::<Seq<u8>>::empty());
            assert(spec_dec(bs, expected) == Ok::<KeystoreView, CoreError>(ks@));
            assert(ks@.wf());
        }
        Ok(ks)
    }
}

/// Tag enforcement: decoding any byte string whose embedded algorithm
/// tag is missing or differs from the caller's expected tag fails with
/// `AlgorithmMismatch`, never returns a keystore.
pub proof fn lemma_tag_enforced(b: Seq<u8>, expected: Algorithm)
    requires
        b.len() < 2 || b.subrange(0, 2) != tag_seq(expected),
    ensures
        spec_dec(b, expected) == Err::<KeystoreView, CoreError>(CoreError::AlgorithmMismatch),
{
}

/// A keystore record encoded under one algorithm never decodes under
/// another: the embedded tag is checked first and the mismatch is fatal.
pub proof fn lemma_decode_wrong_algorithm(v: KeystoreView, other: Algorithm)
    requires
        v.wf(),
        other != v.algorithm,
    ensures
        spec_dec(spec_enc(v), other) == Err::<KeystoreView, CoreError>(
            CoreError::AlgorithmMismatch,
        ),
{
    let b = spec_enc(v);
    assert(b.subrange(0, 2) =~= tag_seq(v.algorithm));
    if tag_seq(v.algorithm) == tag_seq(other) {
        lemma_tag_injective(v.algorithm, other);
    }
    lemma_tag_enforced(b, other);
}

/// The canonical binary record of a signature.
pub open spec fn spec_sig_enc(sv: SignatureView) -> Seq<u8> {
    tag_seq(sv.algorithm) + sv.r + sv.s + seq![sv.v as u8] + be_bytes(sv.pk.len(), 8) + sv.pk
}

/// What decoding a byte string as a signature of `expected` yields.
pub open spec fn spec_sig_dec(b: Seq<u8>, expected: Algorithm) -> Result<
    SignatureView,
    CoreError,
> {
    if b.len() < 2 || b.subrange(0, 2) != tag_seq(expected) {
        Err(CoreError::AlgorithmMismatch)
    } else if b.len() < 75 {
        Err(CoreError::MalformedLegacyRecord)
    } else {
        let rr = b.subrange(2, 34);
        let ss = b.subrange(34, 66);
        let vb = b[66];
        let pkl = bytes_val(b.subrange(67, 75));
        if b.len() != 75 + pkl {
            Err(CoreError::MalformedLegacyRecord)
        } else {
            let pk = b.subrange(75, 75 + pkl as int);
            if !(bytes_val(ss) < curve_order_val(expected.curve)) {
                Err(CoreError::InvalidScalarLength)
            } else if (if expected.scheme is ElGamal {
                !(vb < 4)
            } else {
                vb != 0
            }) {
                Err(CoreError::MalformedLegacyRecord)
            } else if !point_wf(pk, expected.curve) {
                Err(CoreError::NotOnCurve)
            } else if expected.curve is Ed25519 && expected.scheme is Schnorr && !ed_point_ok(
                rr,
            ) {
                Err(CoreError::NotOnCurve)
            } else {
                Ok(SignatureView { r: rr, s: ss, v: vb as u32, pk, algorithm: expected })
            }
        }
    }
}

/// Round trip of the signature record: the record of a well-formed
/// signature decodes back to the signature under its own algorithm.
pub proof fn lemma_sig_enc_dec(sv: SignatureView)
    requires
        sv.wf(),
        sv.pk.len() < 0x10000000000000000,
    ensures
        spec_sig_dec(spec_sig_enc(sv), sv.algorithm) == Ok::<SignatureView, CoreError>(sv),
{
    reveal_with_fuel(pow256, 9);
    let b = spec_sig_enc(sv);
    lemma_be_bytes_len(sv.pk.len(), 8);
    lemma_be_bytes_val(sv.pk.len(), 8);
    assert(b.subrange(0, 2) =~= tag_seq(sv.algorithm));
    assert(b.subrange(2, 34) =~= sv.r);
    assert(b.subrange(34, 66) =~= sv.s);
    assert(b[66] == sv.v as u8);
    assert(b.subrange(67, 75) =~= be_bytes(sv.pk.len(), 8));
    assert(b.len() == 75 + sv.pk.len());
    assert(b.subrange(75, 75 + sv.pk.len() as int) =~= sv.pk);
    assert(sv.v as u8 as u32 == sv.v);
    let dec = spec_sig_dec(b, sv.algorithm);
    assert(dec is Ok);
    assert(dec.unwrap() == sv);
}

/// A signature record encoded under one algorithm never decodes under
/// another.
pub proof fn lemma_sig_decode_wrong_algorithm(sv: SignatureView, other: Algorithm)
    requires
        sv.wf(),
        other != sv.algorithm,
    ensures
        spec_sig_dec(spec_sig_enc(sv), other) == Err::<SignatureView, CoreError>(
            CoreError::AlgorithmMismatch,
        ),
{
    let b = spec_sig_enc(sv);
    assert(b.subrange(0, 2) =~= tag_seq(sv.algorithm));
    if tag_seq(sv.algorithm) == tag_seq(other) {
        lemma_tag_injective(sv.algorithm, other);
    }
}

/// Check every part of a signature record's invariant.
pub fn check_signature(sig: &Signature) -> (res: bool)
    ensures
        res == sig@.wf(),
{
    if sig.r.len() != 32 || sig.s.len() != 32 {
        return false;
    }
    if !scalar_in_range(&sig.s, &sig.algorithm.curve) {
        return false;
    }
    if !check_point(&sig.pk, &sig.algorithm.curve) {
        return false;
    }
    let v_ok = match sig.algorithm.scheme {
        Scheme::ElGamal => sig.v < 4,
        Scheme::Schnorr => sig.v == 0,
    };
    if !v_ok {
        return false;
    }
    match (&sig.algorithm.curve, &sig.algorithm.scheme) {
        (Curve::Ed25519, Scheme::Schnorr) => check_point(&sig.r, &Curve::Ed25519),
        _ => true,
    }
}

/// Encode a signature as its canonical binary record.
///
/// Succeeds exactly on well-formed signatures; the record then decodes
/// back to the same signature under the same algorithm.
pub fn encode_signature(sig: &Signature) -> (res: Result<Vec<u8>, CoreError>)
    ensures
        (res is Ok) == sig@.wf(),
        res matches Ok(b) ==> b@ == spec_sig_enc(sig@) && spec_sig_dec(b@, sig@.algorithm)
            == Ok::<SignatureView, CoreError>(sig@),
        res matches Err(e) ==> e == CoreError::InvalidScalarLength,
{
    if !check_signature(sig) {
        return Err(CoreError::InvalidScalarLength);
    }
    let mut out: Vec<u8> = Vec::new();
    match sig.algorithm.curve {
        Curve::Secp256k1 => out.push(1u8),
        Curve::Ed25519 => out.push(2u8),
    }
    match sig.algorithm.scheme {
        Scheme::ElGamal => out.push(1u8),
        Scheme::Schnorr => out.push(2u8),
    }
    proof {
        assert(out@ =~= tag_seq(sig@.algorithm));
    }
    append_bytes(&mut out, &sig.r);
    append_bytes(&mut out, &sig.s);
    out.push(sig.v as u8);
    write_u64_be(&mut out, sig.pk.len() as u64);
    append_bytes(&mut out, &sig.pk);
    proof {
        assert(out@ =~= spec_sig_enc(sig@));
        lemma_sig_enc_dec(sig@);
    }
    Ok(out)
}

/// Decode the canonical binary record of a signature, checking the
/// embedded algorithm tag against `expected` before anything else.
///
/// Returns exactly what `spec_sig_dec` says; every decoded signature is
/// well-formed.
#[verifier::loop_isolation(false)]
pub fn decode_signature(b: &Vec<u8>, expected: Algorithm) -> (res: Result<Signature, CoreError>)
    ensures
        res matches Ok(sig) ==> spec_sig_dec(b@, expected) == Ok::<SignatureView, CoreError>(
            sig@,
        ) && sig@.wf() && sig@.algorithm == expected,
        res matches Err(e) ==> spec_sig_dec(b@, expected) == Err::<SignatureView, CoreError>(e),
{
    let ghost bs = b@;
    let blen = b.len();
    if blen < 2 {
        return Err(CoreError::AlgorithmMismatch);
    }
    let cb: u8 = match expected.curve {
        Curve::Secp256k1 => 1,
        Curve::Ed25519 => 2,
    };
    let sb: u8 = match expected.scheme {
        Scheme::ElGamal => 1,
        Scheme::Schnorr => 2,
    };
    if b[0] != cb || b[1] != sb {
        proof {
            assert(bs.subrange(0, 2)[0] == bs[0]);
            assert(bs.subrange(0, 2)[1] == bs[1]);
        }
        return Err(CoreError::AlgorithmMismatch);
    }
    proof {
        assert(bs.subrange(0, 2) =~= tag_seq(expected));
    }
    if blen < 75 {
        return Err(CoreError::MalformedLegacyRecord);
    }
    let pkl64 = read_u64_be(b, 67);
    if (blen as u128) != 75 + (pkl64 as u128) {
        return Err(CoreError::MalformedLegacyRecord);
    }
    let pkl = pkl64 as usize;
    let rr = copy_range(b, 2, 34);
    let ss = copy_range(b, 34, 66);
    let vb = b[66];
    let pk = copy_range(b, 75, 75 + pkl);
    if !scalar_in_range(&ss, &expected.curve) {
        return Err(CoreError::InvalidScalarLength);
    }
    let v_ok = match expected.scheme {
        Scheme::ElGamal => vb < 4,
        Scheme::Schnorr => vb == 0,
    };
    if !v_ok {
        return Err(CoreError::MalformedLegacyRecord);
    }
    if !check_point(&pk, &expected.curve) {
        return Err(CoreError::NotOnCurve);
    }
    let r_ok = match (&expected.curve, &expected.scheme) {
        (Curve::Ed25519, Scheme::Schnorr) => check_point(&rr, &Curve::Ed25519),
        _ => true,
    };
    if !r_ok {
        return Err(CoreError::NotOnCurve);
    }
    let sig = Signature { r: rr, s: ss, v: vb as u32, pk, algorithm: expected };
    proof {
        assert(spec_sig_dec(bs, expected) == Ok::<SignatureView, CoreError>(sig@));
        assert(sig@.wf());
    }
    Ok(sig)
}

/// Malformed-input rejection for the keystore record: any strict prefix
/// of a well-formed keystore's record — a truncation anywhere, in a
/// point, a scalar or a length field — fails to decode.
pub proof fn lemma_truncated_record_rejected(v: KeystoreView, t: int)
    requires
        v.wf(),
        v.commitment_table.len() < 0x10000000000000000,
        v.n_coms() < 0x10000000000000000,
        misc_field(v).len() < 0x10000000000000000,
        xpub_field(v).len() < 0x10000000000000000,
        0 <= t < spec_enc(v).len(),
    ensures
        spec_dec(spec_enc(v).take(t), v.algorithm) is Err,
{
    reveal_with_fuel(pow256, 9);
    let plen = v.algorithm.spec_point_len();
    let np = v.commitment_table.len();
    let nc = v.n_coms();
    let rows = v.commitment_table.map_values(|row: Seq<Seq<u8>>| concat_all(row));
    let pts = points_flat(v.commitment_table);
    let mf = misc_field(v);
    let xf = xpub_field(v);
    let b = spec_enc(v);
    let c = b.take(t);
    lemma_be_bytes_len(v.party_index as nat, 8);
    lemma_be_bytes_len(np, 8);
    lemma_be_bytes_len(nc, 8);
    lemma_be_bytes_len(mf.len(), 8);
    lemma_be_bytes_len(xf.len(), 8);
    assert forall|i: int| 0 <= i < np implies (#[trigger] rows[i]).len() == nc * plen by {
        lemma_concat_all_uniform(v.commitment_table[i], plen);
    }
    lemma_concat_all_uniform(rows, nc * plen);
    assert(pts.len() == np * (nc * plen));
    assert(pts.len() == np * nc * plen) by {
        vstd::arithmetic::mul::lemma_mul_is_associative(np as int, nc as int, plen as int);
    }
    let o7 = 90 + pts.len() as int;
    let o9 = o7 + 8 + mf.len() as int;
    let end = o9 + 8 + xf.len() as int;
    assert(b.len() == end);
    assert(forall|i: int| 0 <= i < t ==> c[i] == b[i]);
    if t < 2 {
        assert(spec_dec(c, v.algorithm) == Err::<KeystoreView, CoreError>(
            CoreError::AlgorithmMismatch,
        ));
    } else {
        assert(c.subrange(0, 2) =~= b.subrange(0, 2));
        assert(b.subrange(0, 2) =~= tag_seq(v.algorithm));
        if t < 90 {
            assert(spec_dec(c, v.algorithm) == Err::<KeystoreView, CoreError>(
                CoreError::MalformedLegacyRecord,
            ));
        } else {
            assert(c.subrange(2, 10) =~= b.subrange(2, 10));
            assert(c.subrange(74, 82) =~= b.subrange(74, 82));
            assert(c.subrange(82, 90) =~= b.subrange(82, 90));
            assert(b.subrange(2, 10) =~= be_bytes(v.party_index as nat, 8));
            assert(b.subrange(74, 82) =~= be_bytes(np, 8));
            assert(b.subrange(82, 90) =~= be_bytes(nc, 8));
            lemma_be_bytes_val(v.party_index as nat, 8);
            lemma_be_bytes_val(np, 8);
            lemma_be_bytes_val(nc, 8);
            let pi = bytes_val(c.subrange(2, 10));
            assert(pi == v.party_index as nat && 1 <= pi <= np && nc >= 1);
            if t < o7 + 8 {
                assert(c.len() < 90 + np * nc * plen + 8);
                assert(spec_dec(c, v.algorithm) == Err::<KeystoreView, CoreError>(
                    CoreError::MalformedLegacyRecord,
                ));
            } else {
                assert(c.subrange(10, 42) =~= b.subrange(10, 42));
                assert(c.subrange(42, 74) =~= b.subrange(42, 74));
                assert(b.subrange(10, 42) =~= v.ui);
                assert(b.subrange(42, 74) =~= v.xi);
                assert forall|i: int, j: int| 0 <= i < np && 0 <= j < nc implies point_wf(
                    #[trigger] c.subrange(
                        90 + (i * nc + j) * plen,
                        90 + (i * nc + j) * plen + plen,
                    ),
                    v.algorithm.curve,
                ) by {
                    let w = nc * plen;
                    assert(pts.subrange(i * w, i * w + w) == rows[i]);
                    lemma_concat_all_uniform(v.commitment_table[i], plen);
                    assert(rows[i].subrange(j * plen, j * plen + plen)
                        == v.commitment_table[i][j]);
                    assert(0 <= i * w && i * w + w <= pts.len()) by (nonlinear_arith)
                        requires
                            0 <= i < np,
                            w >= 0,
                            pts.len() == np * w,
                    ;
                    assert(0 <= j * plen && j * plen + plen <= w) by (nonlinear_arith)
                        requires
                            0 <= j < nc,
                            plen >= 0,
                            w == nc * plen,
                    ;
                    assert(b.subrange(90, o7) =~= pts);
                    lemma_subrange_shift(b, 90, pts, i * w, i * w + w);
                    lemma_subrange_shift(b, 90 + i * w, rows[i], j * plen, j * plen + plen);
                    assert((i * nc + j) * plen == i * w + j * plen) by (nonlinear_arith)
                        requires
                            w == nc * plen,
                    ;
                    assert(c.subrange(
                        90 + (i * nc + j) * plen,
                        90 + (i * nc + j) * plen + plen,
                    ) =~= b.subrange(
                        90 + (i * nc + j) * plen,
                        90 + (i * nc + j) * plen + plen,
                    ));
                    assert(point_wf(v.commitment_table[i][j], v.algorithm.curve));
                }
                let moff = 90 + np * nc * plen;
                assert(moff == o7);
                assert(c.subrange(o7, o7 + 8) =~= b.subrange(o7, o7 + 8));
                assert(b.subrange(o7, o7 + 8) =~= be_bytes(mf.len(), 8));
                lemma_be_bytes_val(mf.len(), 8);
                let mlen = bytes_val(c.subrange(o7, o7 + 8));
                assert(mlen == mf.len());
                if t < o9 + 8 {
                    assert(c.len() < moff + 8 + mlen + 8);
                    assert(spec_dec(c, v.algorithm) == Err::<KeystoreView, CoreError>(
                        CoreError::MalformedLegacyRecord,
                    ));
                } else {
                    let xoff = moff + 8 + mlen;
                    assert(xoff == o9);
                    assert(c.subrange(o9, o9 + 8) =~= b.subrange(o9, o9 + 8));
                    assert(b.subrange(o9, o9 + 8) =~= be_bytes(xf.len(), 8));
                    lemma_be_bytes_val(xf.len(), 8);
                    let xlen = bytes_val(c.subrange(o9, o9 + 8));
                    assert(xlen == xf.len());
                    assert(c.len() != xoff + 8 + xlen);
                    assert(spec_dec(c, v.algorithm) == Err::<KeystoreView, CoreError>(
                        CoreError::MalformedLegacyRecord,
                    ));
                }
            }
        }
    }
}

/// Malformed-input rejection for the migration: a legacy record holding
/// a commitment point of the wrong byte length never migrates.
pub proof fn lemma_wrong_point_length_rejected(rv: crate::legacy::LegacyView, i: int, j: int)
    requires
        0 <= i < rv.vss.len(),
        0 <= j < rv.vss[i].len(),
        rv.vss[i][j].len() != 33,
    ensures
        crate::legacy::spec_migrate_rec(rv) is Err,
{
    if crate::legacy::rec_shape_ok(rv) {
        assert(!point_wf(rv.vss[i][j], Curve::Secp256k1));
        assert(!crate::legacy::rec_points_ok(rv));
    }
}

} // verus!
