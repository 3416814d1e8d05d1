//! The historical keystore layout and its migration.
//!
//! The legacy record is a fixed-position JSON-shaped text whose five
//! logical slots the migration reads: the party-secret block (blinding
//! scalar and Paillier prime pair), the signing-key block, the
//! authoritative party index, the per-party VSS commitment records, and
//! the peer moduli.  Genuine records carry more: redundant members in
//! the first two slots (`y_i`, `ek`, `y`), polynomial parameters in each
//! VSS record, and two trailing slots (the aggregate point and a 32-byte
//! array); the grammar reads all of them as typed projections and drops
//! what the migration does not use.  The historical writer serialized
//! fixed structures, so key order and spacing never vary; the grammar
//! below is the versioned schema of exactly that byte shape, written as
//! a specification-level parser.  `parse_legacy` is proved to return
//! exactly what the grammar says, and `migrate_elgamal` turns the parsed
//! record into a keystore of the Paillier-assisted suite, failing on the
//! first malformed field and never returning a partial keystore.

use vstd::prelude::*;
use vstd::string::StringSliceAdditionalSpecFns;


use crate::algo::{Algorithm, CoreError, Curve, Scheme};
use crate::keystore::{
    check_dec, check_point, curve_order_val, point_wf, reduce_mod_order, Keystore, KeystoreView,
    PaillierKey, PaillierKeyView, MISC_MAX,
};
use crate::prim::{misc_pickle, misc_to_pickle};
use crate::nums::{be_bytes, bytes_val, dec_val, is_dec, is_digit};

verus! {

/// Byte of an ASCII comma.
pub const SEP: u8 = 44;

/// Byte of an ASCII closing bracket.
pub const END: u8 = 93;

/// A parsed legacy record: the five slots' variable fields, positions
/// mapped to names once, at the system boundary.
#[derive(Clone, Debug, PartialEq, Eq)]
pub struct LegacyRecord {
    /// Raw blinding-scalar bytes, not yet reduced.
    pub ui: Vec<u8>,
    /// First Paillier prime, decimal digits.
    pub p: Vec<u8>,
    /// Second Paillier prime, decimal digits.
    pub q: Vec<u8>,
    /// The party index of the party-secret block, redundant with the
    /// authoritative third slot and kept only for the record.
    pub index0: u64,
    /// Raw signing-share bytes, not yet reduced.
    pub xi: Vec<u8>,
    /// The authoritative party index.
    pub party_index: u64,
    /// Per-party commitment points, 1-based party index by position.
    pub vss: Vec<Vec<Vec<u8>>>,
    /// Peer Paillier moduli, decimal digits, 1-based party index by
    /// position.
    pub moduli: Vec<Vec<u8>>,
}

/// Mathematical view of a [`LegacyRecord`].
pub struct LegacyView {
    pub ui: Seq<u8>,
    pub p: Seq<u8>,
    pub q: Seq<u8>,
    pub index0: u64,
    pub xi: Seq<u8>,
    pub party_index: u64,
    pub vss: Seq<Seq<Seq<u8>>>,
    pub moduli: Seq<Seq<u8>>,
}

impl View for LegacyRecord {
    type V = LegacyView;

    open spec fn view(&self) -> LegacyView {
        LegacyView {
            ui: self.ui@,
            p: self.p@,
            q: self.q@,
            index0: self.index0,
            xi: self.xi@,
            party_index: self.party_index,
            vss: self.vss.deep_view(),
            moduli: self.moduli.deep_view(),
        }
    }
}

/// Bytes of the literal fragment `slot_open` of the legacy grammar.
pub open spec fn lit_slot_open() -> Seq<u8> {
    "[{\"u_i\":{\"curve\":\"secp256k1\",\"scalar\":".spec_bytes()
}

/// Bytes of the literal fragment `yi_open` of the legacy grammar.
pub open spec fn lit_yi_open() -> Seq<u8> {
    "},\"y_i\":{\"curve\":\"secp256k1\",\"point\":".spec_bytes()
}

/// Bytes of the literal fragment `dk_open` of the legacy grammar.
pub open spec fn lit_dk_open() -> Seq<u8> {
    "},\"dk\":{\"p\":\"".spec_bytes()
}

/// Bytes of the literal fragment `q_open` of the legacy grammar.
pub open spec fn lit_q_open() -> Seq<u8> {
    "\",\"q\":\"".spec_bytes()
}

/// Bytes of the literal fragment `ek_open` of the legacy grammar.
pub open spec fn lit_ek_open() -> Seq<u8> {
    "\"},\"ek\":{\"n\":\"".spec_bytes()
}

/// Bytes of the literal fragment `index_open` of the legacy grammar.
pub open spec fn lit_index_open() -> Seq<u8> {
    "\"},\"party_index\":".spec_bytes()
}

/// Bytes of the literal fragment `y_open` of the legacy grammar.
pub open spec fn lit_y_open() -> Seq<u8> {
    "},{\"y\":{\"curve\":\"secp256k1\",\"point\":".spec_bytes()
}

/// Bytes of the literal fragment `xi_open` of the legacy grammar.
pub open spec fn lit_xi_open() -> Seq<u8> {
    "},\"x_i\":{\"curve\":\"secp256k1\",\"scalar\":".spec_bytes()
}

/// Bytes of the literal fragment `slot2_close` of the legacy grammar.
pub open spec fn lit_slot2_close() -> Seq<u8> {
    "}},".spec_bytes()
}

/// Bytes of the literal fragment `list_open` of the legacy grammar.
pub open spec fn lit_list_open() -> Seq<u8> {
    ",[".spec_bytes()
}

/// Bytes of the literal fragment `params_open` of the legacy grammar.
pub open spec fn lit_params_open() -> Seq<u8> {
    "{\"parameters\":{\"threshold\":".spec_bytes()
}

/// Bytes of the literal fragment `share_open` of the legacy grammar.
pub open spec fn lit_share_open() -> Seq<u8> {
    ",\"share_count\":".spec_bytes()
}

/// Bytes of the literal fragment `coms_open` of the legacy grammar.
pub open spec fn lit_coms_open() -> Seq<u8> {
    "},\"commitments\":".spec_bytes()
}

/// Bytes of the literal fragment `pt_open` of the legacy grammar.
pub open spec fn lit_pt_open() -> Seq<u8> {
    "{\"curve\":\"secp256k1\",\"point\":".spec_bytes()
}

/// Bytes of the literal fragment `n_open` of the legacy grammar.
pub open spec fn lit_n_open() -> Seq<u8> {
    "{\"n\":\"".spec_bytes()
}

/// Bytes of the literal fragment `n_close` of the legacy grammar.
pub open spec fn lit_n_close() -> Seq<u8> {
    "\"}".spec_bytes()
}

/// Bytes of the literal fragment `tail_pt_open` of the legacy grammar.
pub open spec fn lit_tail_pt_open() -> Seq<u8> {
    ",{\"curve\":\"secp256k1\",\"point\":".spec_bytes()
}

/// Bytes of the literal fragment `tail_mid` of the legacy grammar.
pub open spec fn lit_tail_mid() -> Seq<u8> {
    "},".spec_bytes()
}

/// Bytes of the literal fragment `brace_close` of the legacy grammar.
pub open spec fn lit_brace_close() -> Seq<u8> {
    "}".spec_bytes()
}

/// A literal fragment at position `i`: the position after it, when it
/// is there.
pub open spec fn sp_lit(s: Seq<u8>, i: int, lit: Seq<u8>) -> Option<int> {
    if 0 <= i && i + lit.len() <= s.len() && s.subrange(i, i + lit.len()) == lit {
        Some(i + lit.len())
    } else {
        None
    }
}

/// First position at or after `i` that does not hold a decimal digit.
pub open spec fn digits_end(s: Seq<u8>, i: int) -> int
    decreases s.len() - i,
{
    if 0 <= i && i < s.len() && is_digit(s[i]) {
        digits_end(s, i + 1)
    } else {
        i
    }
}

/// The scan stays inside the string and yields digits only.
pub proof fn lemma_digits_end(s: Seq<u8>, i: int)
    requires
        0 <= i <= s.len(),
    ensures
        i <= digits_end(s, i) <= s.len(),
        forall|t: int| i <= t < digits_end(s, i) ==> is_digit(s[t]),
    decreases s.len() - i,
{
    if 0 <= i && i < s.len() && is_digit(s[i]) {
        lemma_digits_end(s, i + 1);
    }
}

/// A canonical decimal number at position `i`: its digits and the
/// position after them.  Canonical means nonempty and without a leading
/// zero.
pub open spec fn sp_num(s: Seq<u8>, i: int) -> Option<(Seq<u8>, int)> {
    if 0 <= i && i <= s.len() {
        let e = digits_end(s, i);
        if e > i && (s[i] != 48 || e == i + 1) {
            Some((s.subrange(i, e), e))
        } else {
            None
        }
    } else {
        None
    }
}

/// A canonical decimal number that fits an unsigned 64-bit value.
pub open spec fn sp_u64(s: Seq<u8>, i: int) -> Option<(u64, int)> {
    match sp_num(s, i) {
        None => None,
        Some((ds, e)) => if dec_val(ds) <= u64::MAX {
            Some((dec_val(ds) as u64, e))
        } else {
            None
        },
    }
}

/// A canonical decimal number that fits a byte.
pub open spec fn sp_u8(s: Seq<u8>, i: int) -> Option<(u8, int)> {
    match sp_u64(s, i) {
        None => None,
        Some((v, e)) => if v <= 255 {
            Some((v as u8, e))
        } else {
            None
        },
    }
}

/// The remaining items of a byte list, after at least one was read.
pub open spec fn sp_bytes_rest(s: Seq<u8>, i: int, acc: Seq<u8>) -> Option<(Seq<u8>, int)>
    decreases s.len() - i,
{
    if !(0 <= i && i < s.len()) {
        None
    } else if s[i] == END {
        Some((acc, i + 1))
    } else if s[i] == SEP {
        match sp_u8(s, i + 1) {
            None => None,
            Some((v, j)) => if i + 1 < j && j <= s.len() {
                sp_bytes_rest(s, j, acc.push(v))
            } else {
                None
            },
        }
    } else {
        None
    }
}

/// A byte list: `[` then decimal byte values separated by commas, then
/// `]`.  The empty list is the two brackets alone.
pub open spec fn sp_bytes(s: Seq<u8>, i: int) -> Option<(Seq<u8>, int)> {
    if 0 <= i && i < s.len() && s[i] == 91 {
        if i + 1 < s.len() && s[i + 1] == END {
            Some((Seq::empty(), i + 2))
        } else {
            match sp_u8(s, i + 1) {
                None => None,
                Some((v, j)) => if i + 1 < j && j <= s.len() {
                    sp_bytes_rest(s, j, seq![v])
                } else {
                    None
                },
            }
        }
    } else {
        None
    }
}

/// One commitment point: the point object's fixed fragments around a
/// byte list.
pub open spec fn sp_pt(s: Seq<u8>, i: int) -> Option<(Seq<u8>, int)> {
    match sp_lit(s, i, lit_pt_open()) {
        None => None,
        Some(j) => match sp_bytes(s, j) {
            None => None,
            Some((bts, j2)) => match sp_lit(s, j2, lit_brace_close()) {
                None => None,
                Some(j3) => Some((bts, j3)),
            },
        },
    }
}

/// The remaining points of a commitment list.
pub open spec fn sp_pts_rest(s: Seq<u8>, i: int, acc: Seq<Seq<u8>>) -> Option<
    (Seq<Seq<u8>>, int),
>
    decreases s.len() - i,
{
    if !(0 <= i && i < s.len()) {
        None
    } else if s[i] == END {
        Some((acc, i + 1))
    } else if s[i] == SEP {
        match sp_pt(s, i + 1) {
            None => None,
            Some((pt, j)) => if i + 1 < j && j <= s.len() {
                sp_pts_rest(s, j, acc.push(pt))
            } else {
                None
            },
        }
    } else {
        None
    }
}

/// A nonempty list of commitment points.
pub open spec fn sp_pts(s: Seq<u8>, i: int) -> Option<(Seq<Seq<u8>>, int)> {
    if 0 <= i && i < s.len() && s[i] == 91 {
        match sp_pt(s, i + 1) {
            None => None,
            Some((pt, j)) => if i + 1 < j && j <= s.len() {
                sp_pts_rest(s, j, seq![pt])
            } else {
                None
            },
        }
    } else {
        None
    }
}

/// One per-party VSS record: the polynomial parameters (read as typed
/// projections and not retained) and the commitment list, inside the
/// record's fixed fragments.
pub open spec fn sp_vssrec(s: Seq<u8>, i: int) -> Option<(Seq<Seq<u8>>, int)> {
    match sp_lit(s, i, lit_params_open()) {
        None => None,
        Some(j) => match sp_u64(s, j) {
            None => None,
            Some((_t, j2)) => match sp_lit(s, j2, lit_share_open()) {
                None => None,
                Some(j3) => match sp_u64(s, j3) {
                    None => None,
                    Some((_c, j4)) => match sp_lit(s, j4, lit_coms_open()) {
                        None => None,
                        Some(j5) => match sp_pts(s, j5) {
                            None => None,
                            Some((pts, j6)) => match sp_lit(s, j6, lit_brace_close()) {
                                None => None,
                                Some(j7) => Some((pts, j7)),
                            },
                        },
                    },
                },
            },
        },
    }
}

/// The remaining VSS records of the fourth slot.
pub open spec fn sp_vss_rest(s: Seq<u8>, i: int, acc: Seq<Seq<Seq<u8>>>) -> Option<
    (Seq<Seq<Seq<u8>>>, int),
>
    decreases s.len() - i,
{
    if !(0 <= i && i < s.len()) {
        None
    } else if s[i] == END {
        Some((acc, i + 1))
    } else if s[i] == SEP {
        match sp_vssrec(s, i + 1) {
            None => None,
            Some((rec, j)) => if i + 1 < j && j <= s.len() {
                sp_vss_rest(s, j, acc.push(rec))
            } else {
                None
            },
        }
    } else {
        None
    }
}

/// One peer modulus record: a quoted canonical decimal.
pub open spec fn sp_nrec(s: Seq<u8>, i: int) -> Option<(Seq<u8>, int)> {
    match sp_lit(s, i, lit_n_open()) {
        None => None,
        Some(j) => match sp_num(s, j) {
            None => None,
            Some((ds, j2)) => match sp_lit(s, j2, lit_n_close()) {
                None => None,
                Some(j3) => Some((ds, j3)),
            },
        },
    }
}

/// The remaining peer modulus records of the fifth slot.
pub open spec fn sp_ns_rest(s: Seq<u8>, i: int, acc: Seq<Seq<u8>>) -> Option<(Seq<Seq<u8>>, int)>
    decreases s.len() - i,
{
    if !(0 <= i && i < s.len()) {
        None
    } else if s[i] == END {
        Some((acc, i + 1))
    } else if s[i] == SEP {
        match sp_nrec(s, i + 1) {
            None => None,
            Some((ds, j)) => if i + 1 < j && j <= s.len() {
                sp_ns_rest(s, j, acc.push(ds))
            } else {
                None
            },
        }
    } else {
        None
    }
}


/// The fourth slot's list: at least one VSS record.
pub open spec fn sp_vss(s: Seq<u8>, i: int) -> Option<(Seq<Seq<Seq<u8>>>, int)> {
    match sp_vssrec(s, i) {
        None => None,
        Some((rec0, j)) => if i < j && j <= s.len() {
            sp_vss_rest(s, j, seq![rec0])
        } else {
            None
        },
    }
}

/// The fifth slot's list: at least one peer modulus.
pub open spec fn sp_ns(s: Seq<u8>, i: int) -> Option<(Seq<Seq<u8>>, int)> {
    match sp_nrec(s, i) {
        None => None,
        Some((n0, j)) => if i < j && j <= s.len() {
            sp_ns_rest(s, j, seq![n0])
        } else {
            None
        },
    }
}

/// The whole legacy record, in the byte shape the historical writer
/// produced: the five logical slots the migration reads — party-secret
/// block, signing-key block, authoritative index, VSS records, peer
/// moduli — each with the redundant members genuine records carry
/// (`y_i`, `ek`, `y`, `parameters`), followed by two auxiliary slots
/// (the aggregate point and a 32-byte array) that are read as typed
/// projections and not retained, ending exactly at the end of the text.
#[verifier::opaque]
pub open spec fn sp_record(s: Seq<u8>) -> Option<LegacyView> {
    match sp_lit(s, 0, lit_slot_open()) {
        None => None,
        Some(i1) => match sp_bytes(s, i1) {
            None => None,
            Some((ui, i2)) => match sp_lit(s, i2, lit_yi_open()) {
                None => None,
                Some(i3) => match sp_bytes(s, i3) {
                    None => None,
                    Some((_yi, i4)) => match sp_lit(s, i4, lit_dk_open()) {
                        None => None,
                        Some(i5) => match sp_num(s, i5) {
                            None => None,
                            Some((p, i6)) => match sp_lit(s, i6, lit_q_open()) {
                                None => None,
                                Some(i7) => match sp_num(s, i7) {
                                    None => None,
                                    Some((q, i8)) => match sp_lit(s, i8, lit_ek_open()) {
                                        None => None,
                                        Some(i9) => match sp_num(s, i9) {
                                            None => None,
                                            Some((_ekn, i10)) => match sp_lit(
                                                s,
                                                i10,
                                                lit_index_open(),
                                            ) {
                                                None => None,
                                                Some(i11) => match sp_u64(s, i11) {
                                                    None => None,
                                                    Some((index0, i12)) => match sp_lit(
                                                        s,
                                                        i12,
                                                        lit_y_open(),
                                                    ) {
                                                        None => None,
                                                        Some(i13) => match sp_bytes(s, i13) {
                                                            None => None,
                                                            Some((_y, i14)) => match sp_lit(
                                                                s,
                                                                i14,
                                                                lit_xi_open(),
                                                            ) {
                                                                None => None,
                                                                Some(i15) => match sp_bytes(
                                                                    s,
                                                                    i15,
                                                                ) {
                                                                    None => None,
                                                                    Some(
                                                                        (xi, i16),
                                                                    ) => sp_record_tail(
                                                                        s,
                                                                        i16,
                                                                        ui,
                                                                        p,
                                                                        q,
                                                                        index0,
                                                                        xi,
                                                                    ),
                                                                },
                                                            },
                                                        },
                                                    },
                                                },
                                            },
                                        },
                                    },
                                },
                            },
                        },
                    },
                },
            },
        },
    }
}

/// The third through seventh slots of the record, after the signing-key
/// block's byte list: the authoritative index, the VSS records, the peer
/// moduli, and the two auxiliary slots genuine records end with.
pub open spec fn sp_record_tail(
    s: Seq<u8>,
    i16: int,
    ui: Seq<u8>,
    p: Seq<u8>,
    q: Seq<u8>,
    index0: u64,
    xi: Seq<u8>,
) -> Option<LegacyView> {
    match sp_lit(s, i16, lit_slot2_close()) {
        None => None,
        Some(i17) => match sp_u64(s, i17) {
            None => None,
            Some((pidx, i18)) => match sp_lit(s, i18, lit_list_open()) {
                None => None,
                Some(i19) => match sp_vss(s, i19) {
                    None => None,
                    Some((vss, i20)) => match sp_lit(s, i20, lit_list_open()) {
                        None => None,
                        Some(i21) => match sp_ns(s, i21) {
                            None => None,
                            Some((ns, i22)) => match sp_lit(s, i22, lit_tail_pt_open()) {
                                None => None,
                                Some(i23) => match sp_bytes(s, i23) {
                                    None => None,
                                    Some((_agg, i24)) => match sp_lit(s, i24, lit_tail_mid()) {
                                        None => None,
                                        Some(i25) => match sp_bytes(s, i25) {
                                            None => None,
                                            Some((_chain, i26)) => if i26 + 1 == s.len() && 0
                                                <= i26 < s.len() && s[i26] == END {
                                                Some(
                                                    LegacyView {
                                                        ui,
                                                        p,
                                                        q,
                                                        index0,
                                                        xi,
                                                        party_index: pidx,
                                                        vss,
                                                        moduli: ns,
                                                    },
                                                )
                                            } else {
                                                None
                                            },
                                        },
                                    },
                                },
                            },
                        },
                    },
                },
            },
        },
    }
}

/// Literal fragment of the legacy grammar.
const LIT_SLOT_OPEN: &'static str = "[{\"u_i\":{\"curve\":\"secp256k1\",\"scalar\":";

/// Literal fragment of the legacy grammar.
const LIT_YI_OPEN: &'static str = "},\"y_i\":{\"curve\":\"secp256k1\",\"point\":";

/// Literal fragment of the legacy grammar.
const LIT_DK_OPEN: &'static str = "},\"dk\":{\"p\":\"";

/// Literal fragment of the legacy grammar.
const LIT_Q_OPEN: &'static str = "\",\"q\":\"";

/// Literal fragment of the legacy grammar.
const LIT_EK_OPEN: &'static str = "\"},\"ek\":{\"n\":\"";

/// Literal fragment of the legacy grammar.
const LIT_INDEX_OPEN: &'static str = "\"},\"party_index\":";

/// Literal fragment of the legacy grammar.
const LIT_Y_OPEN: &'static str = "},{\"y\":{\"curve\":\"secp256k1\",\"point\":";

/// Literal fragment of the legacy grammar.
const LIT_XI_OPEN: &'static str = "},\"x_i\":{\"curve\":\"secp256k1\",\"scalar\":";

/// Literal fragment of the legacy grammar.
const LIT_SLOT2_CLOSE: &'static str = "}},";

/// Literal fragment of the legacy grammar.
const LIT_LIST_OPEN: &'static str = ",[";

/// Literal fragment of the legacy grammar.
const LIT_PARAMS_OPEN: &'static str = "{\"parameters\":{\"threshold\":";

/// Literal fragment of the legacy grammar.
const LIT_SHARE_OPEN: &'static str = ",\"share_count\":";

/// Literal fragment of the legacy grammar.
const LIT_COMS_OPEN: &'static str = "},\"commitments\":";

/// Literal fragment of the legacy grammar.
const LIT_PT_OPEN: &'static str = "{\"curve\":\"secp256k1\",\"point\":";

/// Literal fragment of the legacy grammar.
const LIT_N_OPEN: &'static str = "{\"n\":\"";

/// Literal fragment of the legacy grammar.
const LIT_N_CLOSE: &'static str = "\"}";

/// Literal fragment of the legacy grammar.
const LIT_TAIL_PT_OPEN: &'static str = ",{\"curve\":\"secp256k1\",\"point\":";

/// Literal fragment of the legacy grammar.
const LIT_TAIL_MID: &'static str = "},";

/// Literal fragment of the legacy grammar.
const LIT_BRACE_CLOSE: &'static str = "}";

/// Whether a literal fragment stands at position `i`.
#[verifier::loop_isolation(false)]
fn expect_lit(b: &Vec<u8>, i: usize, lit: &str) -> (r: Option<usize>)
    requires
        i <= b@.len(),
    ensures
        match r {
            Some(j) => sp_lit(b@, i as int, lit.spec_bytes()) == Some(j as int) && i <= j
                <= b@.len(),
            None => sp_lit(b@, i as int, lit.spec_bytes()) is None,
        },
{
    let lb = lit.as_bytes();
    if lb.len() > b.len() - i {
        return None;
    }
    let mut k: usize = 0;
    while k < lb.len()
        invariant
            0 <= k <= lb@.len(),
            forall|t: int| 0 <= t < k ==> b@[i + t] == lb@[t],
        decreases lb@.len() - k,
    {
        if b[i + k] != lb[k] {
            proof {
                let sub = b@.subrange(i as int, i as int + lb@.len() as int);
                assert(sub[k as int] != lb@[k as int]);
            }
            return None;
        }
        k += 1;
    }
    proof {
        assert(b@.subrange(i as int, i as int + lb@.len() as int) =~= lb@);
    }
    Some(i + lb.len())
}

/// First position at or after `i` without a decimal digit.
#[verifier::loop_isolation(false)]
fn scan_digits(b: &Vec<u8>, i: usize) -> (e: usize)
    requires
        i <= b@.len(),
    ensures
        e as int == digits_end(b@, i as int),
        i <= e <= b@.len(),
        forall|t: int| i <= t < e ==> is_digit(b@[t]),
{
    let mut k = i;
    while k < b.len() && 48 <= b[k] && b[k] <= 57
        invariant
            i <= k <= b@.len(),
            digits_end(b@, i as int) == digits_end(b@, k as int),
            forall|t: int| i <= t < k ==> is_digit(b@[t]),
        decreases b@.len() - k,
    {
        k += 1;
    }
    proof {
        lemma_digits_end(b@, i as int);
    }
    k
}

/// A prefix of a digit string never spells more than the whole string.
proof fn lemma_dec_val_mono(s: Seq<u8>, k: int)
    requires
        0 <= k <= s.len(),
    ensures
        dec_val(s.take(k)) <= dec_val(s),
    decreases s.len() - k,
{
    if k == s.len() {
        assert(s.take(k) =~= s);
    } else {
        lemma_dec_val_mono(s, k + 1);
        assert(s.take(k + 1).drop_last() =~= s.take(k));
    }
}

/// A canonical decimal number: its digits.
fn parse_num(b: &Vec<u8>, i: usize) -> (r: Option<(Vec<u8>, usize)>)
    requires
        i <= b@.len(),
    ensures
        match r {
            Some(t) => sp_num(b@, i as int) == Some((t.0@, t.1 as int)) && i < t.1 <= b@.len(),
            None => sp_num(b@, i as int) is None,
        },
{
    let e = scan_digits(b, i);
    if e == i {
        return None;
    }
    if b[i] == 48 && e > i + 1 {
        return None;
    }
    Some((crate::nums::copy_range(b, i, e), e))
}

/// A canonical decimal number that fits an unsigned 64-bit value.
#[verifier::loop_isolation(false)]
fn parse_u64(b: &Vec<u8>, i: usize) -> (r: Option<(u64, usize)>)
    requires
        i <= b@.len(),
    ensures
        match r {
            Some(t) => sp_u64(b@, i as int) == Some((t.0, t.1 as int)) && i < t.1 <= b@.len(),
            None => sp_u64(b@, i as int) is None,
        },
{
    let e = scan_digits(b, i);
    if e == i {
        return None;
    }
    if b[i] == 48 && e > i + 1 {
        return None;
    }
    let ghost ds = b@.subrange(i as int, e as int);
    let mut v: u64 = 0;
    let mut k = i;
    while k < e
        invariant
            i <= k <= e,
            v as nat == dec_val(b@.subrange(i as int, k as int)),
        decreases e - k,
    {
        let d = b[k] - 48;
        proof {
            assert(b@.subrange(i as int, k as int + 1).drop_last() =~= b@.subrange(
                i as int,
                k as int,
            ));
            assert(b@.subrange(i as int, k as int + 1).last() == b@[k as int]);
        }
        if v > (u64::MAX - d as u64) / 10 {
            proof {
                let m = (u64::MAX - d) as int;
                vstd::arithmetic::div_mod::lemma_fundamental_div_mod(m, 10);
                assert(10 * (v as int) + d > u64::MAX);
                assert(dec_val(b@.subrange(i as int, k as int + 1)) > u64::MAX);
                assert(ds.take(k + 1 - i) =~= b@.subrange(i as int, k as int + 1));
                lemma_dec_val_mono(ds, k + 1 - i);
                assert(dec_val(ds) > u64::MAX);
            }
            return None;
        }
        v = v * 10 + d as u64;
        k += 1;
    }
    proof {
        assert(b@.subrange(i as int, e as int) == ds);
    }
    Some((v, e))
}

/// A canonical decimal number that fits a byte.
fn parse_u8(b: &Vec<u8>, i: usize) -> (r: Option<(u8, usize)>)
    requires
        i <= b@.len(),
    ensures
        match r {
            Some(t) => sp_u8(b@, i as int) == Some((t.0, t.1 as int)) && i < t.1 <= b@.len(),
            None => sp_u8(b@, i as int) is None,
        },
{
    match parse_u64(b, i) {
        None => None,
        Some((v, e)) => if v <= 255 {
            Some((v as u8, e))
        } else {
            None
        },
    }
}

/// A byte list.
#[verifier::loop_isolation(false)]
fn parse_bytes(b: &Vec<u8>, i: usize) -> (r: Option<(Vec<u8>, usize)>)
    requires
        i <= b@.len(),
    ensures
        match r {
            Some(t) => sp_bytes(b@, i as int) == Some((t.0@, t.1 as int)) && i < t.1 <= b@.len(),
            None => sp_bytes(b@, i as int) is None,
        },
{
    if i >= b.len() || b[i] != 91 {
        return None;
    }
    if i + 1 < b.len() && b[i + 1] == END {
        let empty: Vec<u8> = Vec::new();
        proof {
            assert(empty@ =~= Seq::<u8>::empty());
        }
        return Some((empty, i + 2));
    }
    let (v0, j0) = match parse_u8(b, i + 1) {
        None => {
            return None;
        },
        Some(t) => t,
    };
    let mut acc: Vec<u8> = Vec::new();
    acc.push(v0);
    let mut cur = j0;
    proof {
        assert(acc@ =~= seq![v0]);
        assert(sp_bytes(b@, i as int) == sp_bytes_rest(b@, cur as int, acc@));
    }
    while cur < b.len()
        invariant
            i < cur <= b@.len(),
            sp_bytes(b@, i as int) == sp_bytes_rest(b@, cur as int, acc@),
        decreases b@.len() - cur,
    {
        let c = b[cur];
        if c == END {
            return Some((acc, cur + 1));
        }
        if c != SEP {
            return None;
        }
        let (v, j) = match parse_u8(b, cur + 1) {
            None => {
                return None;
            },
            Some(t) => t,
        };
        acc.push(v);
        cur = j;
    }
    None
}

/// One commitment point.
fn parse_pt(b: &Vec<u8>, i: usize) -> (r: Option<(Vec<u8>, usize)>)
    requires
        i <= b@.len(),
    ensures
        match r {
            Some(t) => sp_pt(b@, i as int) == Some((t.0@, t.1 as int)) && i < t.1 <= b@.len(),
            None => sp_pt(b@, i as int) is None,
        },
{
    let j = match expect_lit(b, i, LIT_PT_OPEN) {
        None => {
            return None;
        },
        Some(j) => j,
    };
    let (bts, j2) = match parse_bytes(b, j) {
        None => {
            return None;
        },
        Some(t) => t,
    };
    match expect_lit(b, j2, LIT_BRACE_CLOSE) {
        None => None,
        Some(j3) => Some((bts, j3)),
    }
}

/// A nonempty list of commitment points.
#[verifier::loop_isolation(false)]
fn parse_pts(b: &Vec<u8>, i: usize) -> (r: Option<(Vec<Vec<u8>>, usize)>)
    requires
        i <= b@.len(),
    ensures
        match r {
            Some(t) => sp_pts(b@, i as int) == Some((t.0.deep_view(), t.1 as int)) && i < t.1
                <= b@.len(),
            None => sp_pts(b@, i as int) is None,
        },
{
    if i >= b.len() || b[i] != 91 {
        return None;
    }
    let (pt0, j0) = match parse_pt(b, i + 1) {
        None => {
            return None;
        },
        Some(t) => t,
    };
    let mut acc: Vec<Vec<u8>> = Vec::new();
    proof {
        assert(pt0.deep_view() =~= pt0@);
    }
    acc.push(pt0);
    let mut cur = j0;
    proof {
        assert(acc.deep_view() =~= seq![acc@[0]@]);
        assert(sp_pts(b@, i as int) == sp_pts_rest(b@, cur as int, acc.deep_view()));
    }
    while cur < b.len()
        invariant
            i < cur <= b@.len(),
            sp_pts(b@, i as int) == sp_pts_rest(b@, cur as int, acc.deep_view()),
        decreases b@.len() - cur,
    {
        let c = b[cur];
        if c == END {
            return Some((acc, cur + 1));
        }
        if c != SEP {
            return None;
        }
        let (pt, j) = match parse_pt(b, cur + 1) {
            None => {
                return None;
            },
            Some(t) => t,
        };
        let ghost old_acc = acc.deep_view();
        proof {
            assert(pt.deep_view() =~= pt@);
        }
        acc.push(pt);
        proof {
            assert(acc.deep_view() =~= old_acc.push(pt@));
        }
        cur = j;
    }
    None
}

/// One per-party VSS record: the parameters are read and dropped, the
/// commitment points kept.
fn parse_vssrec(b: &Vec<u8>, i: usize) -> (r: Option<(Vec<Vec<u8>>, usize)>)
    requires
        i <= b@.len(),
    ensures
        match r {
            Some(t) => sp_vssrec(b@, i as int) == Some((t.0.deep_view(), t.1 as int)) && i < t.1
                <= b@.len(),
            None => sp_vssrec(b@, i as int) is None,
        },
{
    let j = match expect_lit(b, i, LIT_PARAMS_OPEN) {
        None => {
            return None;
        },
        Some(j) => j,
    };
    let j2 = match parse_u64(b, j) {
        None => {
            return None;
        },
        Some((_, j2)) => j2,
    };
    let j3 = match expect_lit(b, j2, LIT_SHARE_OPEN) {
        None => {
            return None;
        },
        Some(j3) => j3,
    };
    let j4 = match parse_u64(b, j3) {
        None => {
            return None;
        },
        Some((_, j4)) => j4,
    };
    let j5 = match expect_lit(b, j4, LIT_COMS_OPEN) {
        None => {
            return None;
        },
        Some(j5) => j5,
    };
    let (pts, j6) = match parse_pts(b, j5) {
        None => {
            return None;
        },
        Some(t) => t,
    };
    match expect_lit(b, j6, LIT_BRACE_CLOSE) {
        None => None,
        Some(j7) => Some((pts, j7)),
    }
}

/// One peer modulus record.
fn parse_nrec(b: &Vec<u8>, i: usize) -> (r: Option<(Vec<u8>, usize)>)
    requires
        i <= b@.len(),
    ensures
        match r {
            Some(t) => sp_nrec(b@, i as int) == Some((t.0@, t.1 as int)) && i < t.1 <= b@.len(),
            None => sp_nrec(b@, i as int) is None,
        },
{
    let j = match expect_lit(b, i, LIT_N_OPEN) {
        None => {
            return None;
        },
        Some(j) => j,
    };
    let (ds, j2) = match parse_num(b, j) {
        None => {
            return None;
        },
        Some(t) => t,
    };
    match expect_lit(b, j2, LIT_N_CLOSE) {
        None => None,
        Some(j3) => Some((ds, j3)),
    }
}


/// The fourth slot's list of VSS records.
#[verifier::loop_isolation(false)]
fn parse_vss(b: &Vec<u8>, i: usize) -> (r: Option<(Vec<Vec<Vec<u8>>>, usize)>)
    requires
        i <= b@.len(),
    ensures
        match r {
            Some(t) => sp_vss(b@, i as int) == Some((t.0.deep_view(), t.1 as int)) && i < t.1
                <= b@.len(),
            None => sp_vss(b@, i as int) is None,
        },
{
    let (rec0, i14) = match parse_vssrec(b, i) {
        None => {
            return None;
        },
        Some(t) => t,
    };
    let mut vss: Vec<Vec<Vec<u8>>> = Vec::new();
    let ghost rec0v = rec0.deep_view();
    vss.push(rec0);
    let mut cur = i14;
    proof {
        assert(vss.deep_view() =~= seq![rec0v]);
        assert(sp_vss(b@, i as int) == sp_vss_rest(b@, cur as int, vss.deep_view()));
    }
    while cur < b.len()
        invariant
            i < cur <= b@.len(),
            sp_vss(b@, i as int) == sp_vss_rest(b@, cur as int, vss.deep_view()),
        decreases b@.len() - cur,
    {
        let c = b[cur];
        if c == END {
            return Some((vss, cur + 1));
        }
        if c != SEP {
            return None;
        }
        let (rec, j) = match parse_vssrec(b, cur + 1) {
            None => {
                return None;
            },
            Some(t) => t,
        };
        let ghost old_vss = vss.deep_view();
        let ghost recv = rec.deep_view();
        vss.push(rec);
        proof {
            assert(vss.deep_view() =~= old_vss.push(recv));
        }
        cur = j;
    }
    None
}

/// The fifth slot's list of peer moduli.
#[verifier::loop_isolation(false)]
fn parse_ns(b: &Vec<u8>, i: usize) -> (r: Option<(Vec<Vec<u8>>, usize)>)
    requires
        i <= b@.len(),
    ensures
        match r {
            Some(t) => sp_ns(b@, i as int) == Some((t.0.deep_view(), t.1 as int)) && i < t.1
                <= b@.len(),
            None => sp_ns(b@, i as int) is None,
        },
{
    let (n0, i17) = match parse_nrec(b, i) {
        None => {
            return None;
        },
        Some(t) => t,
    };
    let mut moduli: Vec<Vec<u8>> = Vec::new();
    let ghost n0v = n0@;
    proof {
        assert(n0.deep_view() =~= n0v);
    }
    moduli.push(n0);
    let mut cur = i17;
    proof {
        assert(moduli.deep_view() =~= seq![n0v]);
        assert(sp_ns(b@, i as int) == sp_ns_rest(b@, cur as int, moduli.deep_view()));
    }
    while cur < b.len()
        invariant
            i < cur <= b@.len(),
            sp_ns(b@, i as int) == sp_ns_rest(b@, cur as int, moduli.deep_view()),
        decreases b@.len() - cur,
    {
        let c = b[cur];
        if c == END {
            return Some((moduli, cur + 1));
        }
        if c != SEP {
            return None;
        }
        let (ds, j) = match parse_nrec(b, cur + 1) {
            None => {
                return None;
            },
            Some(t) => t,
        };
        let ghost old_m = moduli.deep_view();
        let ghost dsv = ds@;
        proof {
            assert(ds.deep_view() =~= dsv);
        }
        moduli.push(ds);
        proof {
            assert(moduli.deep_view() =~= old_m.push(dsv));
        }
        cur = j;
    }
    None
}

/// Parse the whole legacy record, mapping its fixed positions to named
/// fields once.  Any shape violation is fatal: no partial record comes
/// back.
#[verifier::loop_isolation(false)]
#[verifier::rlimit(100)]
pub fn parse_legacy(b: &Vec<u8>) -> (res: Result<LegacyRecord, CoreError>)
    ensures
        res matches Ok(rec) ==> sp_record(b@) == Some(rec@),
        res matches Err(e) ==> sp_record(b@) is None && e == CoreError::MalformedLegacyRecord,
{
    proof {
        reveal(sp_record);
    }
    let i1 = match expect_lit(b, 0, LIT_SLOT_OPEN) {
        None => {
            return Err(CoreError::MalformedLegacyRecord);
        },
        Some(j) => j,
    };
    let (ui, i2) = match parse_bytes(b, i1) {
        None => {
            return Err(CoreError::MalformedLegacyRecord);
        },
        Some(t) => t,
    };
    let i3 = match expect_lit(b, i2, LIT_YI_OPEN) {
        None => {
            return Err(CoreError::MalformedLegacyRecord);
        },
        Some(j) => j,
    };
    let i4 = match parse_bytes(b, i3) {
        None => {
            return Err(CoreError::MalformedLegacyRecord);
        },
        Some((_, j)) => j,
    };
    let i5 = match expect_lit(b, i4, LIT_DK_OPEN) {
        None => {
            return Err(CoreError::MalformedLegacyRecord);
        },
        Some(j) => j,
    };
    let (p, i6) = match parse_num(b, i5) {
        None => {
            return Err(CoreError::MalformedLegacyRecord);
        },
        Some(t) => t,
    };
    let i7 = match expect_lit(b, i6, LIT_Q_OPEN) {
        None => {
            return Err(CoreError::MalformedLegacyRecord);
        },
        Some(j) => j,
    };
    let (q, i8) = match parse_num(b, i7) {
        None => {
            return Err(CoreError::MalformedLegacyRecord);
        },
        Some(t) => t,
    };
    let i9 = match expect_lit(b, i8, LIT_EK_OPEN) {
        None => {
            return Err(CoreError::MalformedLegacyRecord);
        },
        Some(j) => j,
    };
    let i10 = match parse_num(b, i9) {
        None => {
            return Err(CoreError::MalformedLegacyRecord);
        },
        Some((_, j)) => j,
    };
    let i11 = match expect_lit(b, i10, LIT_INDEX_OPEN) {
        None => {
            return Err(CoreError::MalformedLegacyRecord);
        },
        Some(j) => j,
    };
    let (index0, i12) = match parse_u64(b, i11) {
        None => {
            return Err(CoreError::MalformedLegacyRecord);
        },
        Some(t) => t,
    };
    let i13 = match expect_lit(b, i12, LIT_Y_OPEN) {
        None => {
            return Err(CoreError::MalformedLegacyRecord);
        },
        Some(j) => j,
    };
    let i14 = match parse_bytes(b, i13) {
        None => {
            return Err(CoreError::MalformedLegacyRecord);
        },
        Some((_, j)) => j,
    };
    let i15 = match expect_lit(b, i14, LIT_XI_OPEN) {
        None => {
            return Err(CoreError::MalformedLegacyRecord);
        },
        Some(j) => j,
    };
    let (xi, i16) = match parse_bytes(b, i15) {
        None => {
            return Err(CoreError::MalformedLegacyRecord);
        },
        Some(t) => t,
    };
    let i17 = match expect_lit(b, i16, LIT_SLOT2_CLOSE) {
        None => {
            return Err(CoreError::MalformedLegacyRecord);
        },
        Some(j) => j,
    };
    let (pidx, i18) = match parse_u64(b, i17) {
        None => {
            return Err(CoreError::MalformedLegacyRecord);
        },
        Some(t) => t,
    };
    let i19 = match expect_lit(b, i18, LIT_LIST_OPEN) {
        None => {
            return Err(CoreError::MalformedLegacyRecord);
        },
        Some(j) => j,
    };
    let (vss, i20) = match parse_vss(b, i19) {
        None => {
            return Err(CoreError::MalformedLegacyRecord);
        },
        Some(t) => t,
    };
    let i21 = match expect_lit(b, i20, LIT_LIST_OPEN) {
        None => {
            return Err(CoreError::MalformedLegacyRecord);
        },
        Some(j) => j,
    };
    let (moduli, i22) = match parse_ns(b, i21) {
        None => {
            return Err(CoreError::MalformedLegacyRecord);
        },
        Some(t) => t,
    };
    let i23 = match expect_lit(b, i22, LIT_TAIL_PT_OPEN) {
        None => {
            return Err(CoreError::MalformedLegacyRecord);
        },
        Some(j) => j,
    };
    let i24 = match parse_bytes(b, i23) {
        None => {
            return Err(CoreError::MalformedLegacyRecord);
        },
        Some((_, j)) => j,
    };
    let i25 = match expect_lit(b, i24, LIT_TAIL_MID) {
        None => {
            return Err(CoreError::MalformedLegacyRecord);
        },
        Some(j) => j,
    };
    let i26 = match parse_bytes(b, i25) {
        None => {
            return Err(CoreError::MalformedLegacyRecord);
        },
        Some((_, j)) => j,
    };
    if !(i26 < b.len() && i26 + 1 == b.len() && b[i26] == END) {
        return Err(CoreError::MalformedLegacyRecord);
    }
    let rec = LegacyRecord { ui, p, q, index0, xi, party_index: pidx, vss, moduli };
    proof {
        assert(sp_record(b@) == Some(rec@));
    }
    Ok(rec)
}

/// The Paillier-assisted secp256k1 suite the migration targets.
pub open spec fn elgamal_algo() -> Algorithm {
    Algorithm { curve: Curve::Secp256k1, scheme: Scheme::ElGamal }
}

/// Shape of a parsed legacy record: a nonempty commitment table with
/// rows of one length, the party index inside it, and one decimal
/// modulus per party.
pub open spec fn rec_shape_ok(rv: LegacyView) -> bool {
    &&& rv.vss.len() >= 1
    &&& rv.vss[0].len() >= 1
    &&& 1 <= rv.party_index <= rv.vss.len()
    &&& forall|i: int| 0 <= i < rv.vss.len() ==> (#[trigger] rv.vss[i]).len() == rv.vss[0].len()
    &&& rv.moduli.len() == rv.vss.len()
    &&& forall|i: int| 0 <= i < rv.moduli.len() ==> is_dec(#[trigger] rv.moduli[i])
}

/// Every commitment of a parsed legacy record decompresses on the
/// curve.
pub open spec fn rec_points_ok(rv: LegacyView) -> bool {
    forall|i: int, j: int|
        0 <= i < rv.vss.len() && 0 <= j < rv.vss[i].len() ==> point_wf(
            #[trigger] rv.vss[i][j],
            Curve::Secp256k1,
        )
}

/// What migrating a parsed legacy record yields: the keystore, or the
/// first failing check's error.  Scalars are reduced modulo the group
/// order, never truncated; commitment points and the Paillier prime pair
/// are validated, and any failure is fatal.
pub open spec fn spec_migrate_rec(rv: LegacyView) -> Result<KeystoreView, CoreError> {
    if !rec_shape_ok(rv) {
        Err(CoreError::MalformedLegacyRecord)
    } else if !rec_points_ok(rv) {
        Err(CoreError::NotOnCurve)
    } else if !PaillierKeyView::import_ok(rv.p, rv.q) {
        Err(CoreError::InvalidModulus)
    } else if misc_pickle(rv.p, rv.q, rv.moduli).len() > MISC_MAX {
        Err(CoreError::InvalidModulus)
    } else {
        Ok(
            KeystoreView {
                party_index: rv.party_index,
                ui: be_bytes(bytes_val(rv.ui) % curve_order_val(Curve::Secp256k1), 32),
                xi: be_bytes(bytes_val(rv.xi) % curve_order_val(Curve::Secp256k1), 32),
                commitment_table: rv.vss,
                paillier: Some(PaillierKeyView::import_of(rv.p, rv.q)),
                peer_moduli: rv.moduli,
                algorithm: elgamal_algo(),
            },
        )
    }
}

/// What migrating a legacy text yields: parse, then convert; each step's
/// first failure is the result.
pub open spec fn spec_migrate(b: Seq<u8>) -> Result<KeystoreView, CoreError> {
    match sp_record(b) {
        None => Err(CoreError::MalformedLegacyRecord),
        Some(rv) => spec_migrate_rec(rv),
    }
}

/// Whether a parsed legacy record has the shape `rec_shape_ok` asks.
fn check_rec_shape(rec: &LegacyRecord) -> (r: bool)
    ensures
        r == rec_shape_ok(rec@),
{
    let ghost rv = rec@;
    if rec.vss.len() == 0 || rec.vss[0].len() == 0 || rec.party_index == 0 || rec.party_index
        > rec.vss.len() as u64 || rec.moduli.len() != rec.vss.len() {
        return false;
    }
    let n_coms = rec.vss[0].len();
    let mut i: usize = 0;
    while i < rec.vss.len()
        invariant
            0 <= i <= rec.vss@.len(),
            rv == rec@,
            n_coms == rv.vss[0].len(),
            forall|t: int| 0 <= t < i ==> (#[trigger] rv.vss[t]).len() == rv.vss[0].len(),
        decreases rec.vss.len() - i,
    {
        if rec.vss[i].len() != n_coms {
            proof {
                assert(rv.vss[i as int].len() != rv.vss[0].len());
            }
            return false;
        }
        i += 1;
    }
    let mut i: usize = 0;
    while i < rec.moduli.len()
        invariant
            0 <= i <= rec.moduli@.len(),
            rv == rec@,
            forall|t: int| 0 <= t < i ==> is_dec(#[trigger] rv.moduli[t]),
        decreases rec.moduli.len() - i,
    {
        if !check_dec(&rec.moduli[i]) {
            proof {
                assert(rv.moduli[i as int] == rec.moduli@[i as int]@);
            }
            return false;
        }
        proof {
            assert(rv.moduli[i as int] == rec.moduli@[i as int]@);
        }
        i += 1;
    }
    true
}

/// Whether every commitment of a parsed legacy record is on the curve.
fn check_rec_points(rec: &LegacyRecord) -> (r: bool)
    ensures
        r == rec_points_ok(rec@),
{
    let ghost rv = rec@;
    let mut i: usize = 0;
    while i < rec.vss.len()
        invariant
            0 <= i <= rec.vss@.len(),
            rv == rec@,
            forall|t: int, u: int|
                0 <= t < i && 0 <= u < rv.vss[t].len() ==> point_wf(
                    #[trigger] rv.vss[t][u],
                    Curve::Secp256k1,
                ),
        decreases rec.vss.len() - i,
    {
        let row = &rec.vss[i];
        let mut j: usize = 0;
        while j < row.len()
            invariant
                0 <= j <= row@.len(),
                rv == rec@,
                0 <= i < rec.vss@.len(),
                row == rec.vss@[i as int],
                forall|u: int|
                    0 <= u < j ==> point_wf(#[trigger] rv.vss[i as int][u], Curve::Secp256k1),
            decreases row.len() - j,
        {
            if !check_point(&row[j], &Curve::Secp256k1) {
                proof {
                    assert(rv.vss[i as int].len() == row@.len());
                    assert(rv.vss[i as int][j as int] == row@[j as int]@);
                }
                return false;
            }
            proof {
                assert(rv.vss[i as int][j as int] == row@[j as int]@);
            }
            j += 1;
        }
        proof {
            assert(rv.vss[i as int].len() == row@.len());
        }
        i += 1;
    }
    true
}

/// Migrate a legacy keystore text into a keystore of the
/// Paillier-assisted secp256k1 suite.
///
/// Total and pure: the result is exactly `spec_migrate` of the bytes, so
/// one input always yields one byte-identical keystore.  Every field
/// access of the legacy text is a typed projection that fails with
/// `MalformedLegacyRecord`; point decompression failures and a bad prime
/// pair are fatal; no partial keystore is ever produced.
#[verifier::rlimit(60)]
pub fn migrate_elgamal(b: &Vec<u8>) -> (res: Result<Keystore, CoreError>)
    ensures
        res matches Ok(k) ==> spec_migrate(b@) == Ok::<KeystoreView, CoreError>(k@) && k@.wf()
            && k@.algorithm == elgamal_algo(),
        res matches Err(e) ==> spec_migrate(b@) == Err::<KeystoreView, CoreError>(e),
{
    let rec = match parse_legacy(b) {
        Err(e) => {
            return Err(e);
        },
        Ok(rec) => rec,
    };
    let ghost rv = rec@;
    if !check_rec_shape(&rec) {
        return Err(CoreError::MalformedLegacyRecord);
    }
    if !check_rec_points(&rec) {
        return Err(CoreError::NotOnCurve);
    }
    // Paillier import, with its precomputation, and the bound on the
    // pickled blob the keystore will be encoded with.
    let pk = match PaillierKey::import(
        crate::nums::clone_bytes(&rec.p),
        crate::nums::clone_bytes(&rec.q),
    ) {
        Err(e) => {
            return Err(e);
        },
        Ok(pk) => pk,
    };
    let blob = misc_to_pickle(&rec.p, &rec.q, &rec.moduli);
    if blob.len() > MISC_MAX {
        return Err(CoreError::InvalidModulus);
    }
    // Scalars, reduced modulo the group order.
    let ui = reduce_mod_order(&rec.ui, &Curve::Secp256k1);
    let xi = reduce_mod_order(&rec.xi, &Curve::Secp256k1);
    let ks = Keystore {
        party_index: rec.party_index,
        ui,
        xi,
        commitment_table: rec.vss,
        paillier: Some(pk),
        peer_moduli: rec.moduli,
        algorithm: Algorithm { curve: Curve::Secp256k1, scheme: Scheme::ElGamal },
    };
    proof {
        crate::keystore::lemma_curve_order_pos(Curve::Secp256k1);
        vstd::arithmetic::div_mod::lemma_mod_bound(
            bytes_val(rv.ui) as int,
            curve_order_val(Curve::Secp256k1) as int,
        );
        vstd::arithmetic::div_mod::lemma_mod_bound(
            bytes_val(rv.xi) as int,
            curve_order_val(Curve::Secp256k1) as int,
        );
        crate::nums::lemma_bytes_val_bound(crate::keystore::curve_order_seq(Curve::Secp256k1));
        crate::nums::lemma_be_bytes_val(
            bytes_val(rv.ui) % curve_order_val(Curve::Secp256k1),
            32,
        );
        crate::nums::lemma_be_bytes_val(
            bytes_val(rv.xi) % curve_order_val(Curve::Secp256k1),
            32,
        );
        assert(spec_migrate_rec(rv) == Ok::<KeystoreView, CoreError>(ks@));
        assert(ks@.wf());
    }
    Ok(ks)
}

/// Migration determinism: the keystore is a function of the legacy
/// bytes, so one fixed input always yields one byte-identical keystore.
pub proof fn lemma_migrate_deterministic(b: Seq<u8>, k1: KeystoreView, k2: KeystoreView)
    requires
        spec_migrate(b) == Ok::<KeystoreView, CoreError>(k1),
        spec_migrate(b) == Ok::<KeystoreView, CoreError>(k2),
    ensures
        k1 == k2,
{
}

/// Convert a legacy keystore text into its canonical binary record: the
/// migration and the encoder in one step, as callers of the historical
/// layout use it.
///
/// The result is pinned by `spec_migrate` and `spec_enc`: the record of
/// the migrated keystore, or the migration's first error, and the record
/// decodes back to the migrated keystore under the suite's own tag.
/// Encoding cannot fail here: every migrated keystore is well-formed and
/// its Paillier blob is far below the decoder's size bound.
pub fn convert(old_json: &str) -> (res: Result<Vec<u8>, CoreError>)
    ensures
        match spec_migrate(old_json.spec_bytes()) {
            Ok(v) => res matches Ok(b) && b@ == crate::codec::spec_enc(v)
                && crate::codec::spec_dec(b@, elgamal_algo()) == Ok::<KeystoreView, CoreError>(
                v,
            ),
            Err(e) => res == Err::<Vec<u8>, CoreError>(e),
        },
{
    let bytes = vstd::slice::slice_to_vec(old_json.as_bytes());
    let ks = match migrate_elgamal(&bytes) {
        Ok(k) => k,
        Err(e) => {
            return Err(e);
        },
    };
    match crate::codec::encode_keystore(&ks) {
        Ok(b) => Ok(b),
        Err(e) => Err(e),
    }
}

} // verus!
