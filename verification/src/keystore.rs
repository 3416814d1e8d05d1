//! The keystore model: one party's durable state after a keygen or
//! reshare round, with its validity invariant.

use vstd::prelude::*;

use crate::algo::{Algorithm, CoreError, Curve};
use crate::nums::{
    be_bytes, bitlen, bytes_val, dec_of, dec_val, is_dec, is_digit, lemma_be_bytes_canonical,
    lemma_bytes_val_bound, lemma_bytes_val_zero_prefix, lemma_dec_of_val, lemma_min_be_pos_len,
    lemma_min_be_val, min_be,
};
use crate::prim::{
    big_mod_bytes, big_mul_dec, big_paillier_modulus, ed_point_check, ed_point_ok, misc_pickle,
    misc_to_pickle, sec1_point_ok, secp_point_check,
};

verus! {

/// Upper bound on the pickled Paillier blob of one keystore, in bytes.
/// Generous for any realistic roster, and it bounds the work a hostile
/// record can cause the pickle reader and its recursive teardown.
pub const MISC_MAX: usize = 16384;

/// Group order of secp256k1, big-endian.
pub open spec fn secp_order_seq() -> Seq<u8> {
    seq![
        0xffu8, 0xff, 0xff, 0xff, 0xff, 0xff, 0xff, 0xff, 0xff, 0xff, 0xff, 0xff, 0xff, 0xff,
        0xff, 0xfe, 0xba, 0xae, 0xdc, 0xe6, 0xaf, 0x48, 0xa0, 0x3b, 0xbf, 0xd2, 0x5e, 0x8c,
        0xd0, 0x36, 0x41, 0x41,
    ]
}

/// Group order of the Edwards-curve prime subgroup, big-endian.
pub open spec fn ed_order_seq() -> Seq<u8> {
    seq![
        0x10u8, 0x00, 0x00, 0x00, 0x00, 0x00, 0x00, 0x00, 0x00, 0x00, 0x00, 0x00, 0x00, 0x00,
        0x00, 0x00, 0x14, 0xde, 0xf9, 0xde, 0xa2, 0xf7, 0x9c, 0xd6, 0x58, 0x12, 0x63, 0x1a,
        0x5c, 0xf5, 0xd3, 0xed,
    ]
}

/// Big-endian bytes of a curve's group order.
pub open spec fn curve_order_seq(c: Curve) -> Seq<u8> {
    match c {
        Curve::Secp256k1 => secp_order_seq(),
        Curve::Ed25519 => ed_order_seq(),
    }
}

/// A curve's group order as a number.
pub open spec fn curve_order_val(c: Curve) -> nat {
    bytes_val(curve_order_seq(c))
}

/// The group order of `c`, as a 32-byte big-endian string.
pub fn curve_order(c: &Curve) -> (r: Vec<u8>)
    ensures
        r@ == curve_order_seq(*c),
        r@.len() == 32,
{
    let r: Vec<u8> = match c {
        Curve::Secp256k1 => vec![
            0xffu8, 0xff, 0xff, 0xff, 0xff, 0xff, 0xff, 0xff, 0xff, 0xff, 0xff, 0xff, 0xff,
            0xff, 0xff, 0xfe, 0xba, 0xae, 0xdc, 0xe6, 0xaf, 0x48, 0xa0, 0x3b, 0xbf, 0xd2, 0x5e,
            0x8c, 0xd0, 0x36, 0x41, 0x41,
        ],
        Curve::Ed25519 => vec![
            0x10u8, 0x00, 0x00, 0x00, 0x00, 0x00, 0x00, 0x00, 0x00, 0x00, 0x00, 0x00, 0x00,
            0x00, 0x00, 0x00, 0x14, 0xde, 0xf9, 0xde, 0xa2, 0xf7, 0x9c, 0xd6, 0x58, 0x12, 0x63,
            0x1a, 0x5c, 0xf5, 0xd3, 0xed,
        ],
    };
    proof {
        assert(r@ =~= curve_order_seq(*c));
    }
    r
}

/// A curve's group order is positive.
pub proof fn lemma_curve_order_pos(c: Curve)
    ensures
        curve_order_val(c) > 0,
        curve_order_seq(c).len() == 32,
{
    reveal_with_fuel(bytes_val, 33);
}

/// Whether two byte vectors hold the same bytes.
pub fn bytes_eq(a: &Vec<u8>, b: &Vec<u8>) -> (r: bool)
    ensures
        r == (a@ =~= b@),
{
    if a.len() != b.len() {
        return false;
    }
    let mut i: usize = 0;
    while i < a.len()
        invariant
            0 <= i <= a.len(),
            a@.len() == b@.len(),
            forall|j: int| 0 <= j < i ==> a@[j] == b@[j],
        decreases a.len() - i,
    {
        if a[i] != b[i] {
            return false;
        }
        i += 1;
    }
    true
}

/// Whether a byte vector is a nonempty string of ASCII decimal digits.
pub fn check_dec(s: &Vec<u8>) -> (r: bool)
    ensures
        r == is_dec(s@),
{
    if s.len() == 0 {
        return false;
    }
    let mut i: usize = 0;
    while i < s.len()
        invariant
            0 <= i <= s@.len(),
            s@.len() > 0,
            forall|j: int| 0 <= j < i ==> is_digit(s@[j]),
        decreases s.len() - i,
    {
        let c = s[i];
        if c < 48 || c > 57 {
            return false;
        }
        i += 1;
    }
    true
}

/// Zero bytes in front of a byte string do not change its value.
proof fn lemma_zeros_prefix_val(k: nat, s: Seq<u8>)
    ensures
        bytes_val(Seq::new(k, |i: int| 0u8) + s) == bytes_val(s),
    decreases k,
{
    if k == 0 {
        assert(Seq::new(0, |i: int| 0u8) + s =~= s);
    } else {
        let t = Seq::new(k, |i: int| 0u8) + s;
        assert(t.len() > 0 && t[0] == 0);
        lemma_bytes_val_zero_prefix(t);
        assert(t.subrange(1, t.len() as int) =~= Seq::new((k - 1) as nat, |i: int| 0u8) + s);
        lemma_zeros_prefix_val((k - 1) as nat, s);
    }
}

/// Reduce a big-endian byte string modulo the group order of `c`,
/// returning the canonical 32-byte big-endian form of the remainder.
pub fn reduce_mod_order(b: &Vec<u8>, c: &Curve) -> (r: Vec<u8>)
    ensures
        r@ == be_bytes(bytes_val(b@) % curve_order_val(*c), 32),
        r@.len() == 32,
        bytes_val(r@) == bytes_val(b@) % curve_order_val(*c),
        bytes_val(r@) < curve_order_val(*c),
{
    let ord = curve_order(c);
    proof {
        lemma_curve_order_pos(*c);
    }
    let m = big_mod_bytes(b.as_slice(), ord.as_slice());
    let ghost v = bytes_val(b@) % curve_order_val(*c);
    proof {
        vstd::arithmetic::div_mod::lemma_mod_bound(
            bytes_val(b@) as int,
            curve_order_val(*c) as int,
        );
        lemma_min_be_val(v);
        lemma_bytes_val_bound(ord@);
        if v == 0 {
            assert(min_be(0).len() == 1);
        } else {
            lemma_min_be_pos_len(v, 32);
        }
        assert(m@.len() <= 32);
    }
    let pad = 32 - m.len();
    let mut out: Vec<u8> = Vec::new();
    let mut i: usize = 0;
    while i < pad
        invariant
            0 <= i <= pad,
            out@ =~= Seq::new(i as nat, |j: int| 0u8),
        decreases pad - i,
    {
        out.push(0u8);
        i += 1;
    }
    let mut j: usize = 0;
    while j < m.len()
        invariant
            0 <= j <= m@.len(),
            out@ =~= Seq::new(pad as nat, |t: int| 0u8) + m@.subrange(0, j as int),
            pad == 32 - m@.len(),
            m@.len() <= 32,
        decreases m.len() - j,
    {
        out.push(m[j]);
        j += 1;
    }
    proof {
        assert(out@ =~= Seq::new(pad as nat, |t: int| 0u8) + m@);
        lemma_zeros_prefix_val(pad as nat, m@);
        assert(bytes_val(out@) == v);
        assert(out@.len() == 32);
        lemma_be_bytes_canonical(out@);
        assert(be_bytes(v, 32) =~= out@);
    }
    out
}

/// Whether a 32-byte big-endian scalar is below the group order of `c`.
pub fn scalar_in_range(b: &Vec<u8>, c: &Curve) -> (r: bool)
    requires
        b@.len() == 32,
    ensures
        r == (bytes_val(b@) < curve_order_val(*c)),
{
    let red = reduce_mod_order(b, c);
    let same = bytes_eq(&red, b);
    proof {
        lemma_curve_order_pos(*c);
        let v = bytes_val(b@);
        let ord = curve_order_val(*c);
        if same {
            assert(bytes_val(b@) == v % ord);
        } else {
            if v < ord {
                vstd::arithmetic::div_mod::lemma_small_mod(v, ord);
                lemma_be_bytes_canonical(b@);
                assert(red@ =~= b@);
                assert(false);
            }
        }
    }
    same
}

/// A party's own Paillier decryption key, reconstructed from its two
/// prime factors.  All four fields are ASCII decimal digit strings; `n`
/// is the public modulus and `nn` its square, the precomputation every
/// homomorphic operation works modulo.  `nn` is never serialized: it is
/// rebuilt whenever the key is imported or decoded.
#[derive(Clone, Debug, PartialEq, Eq)]
pub struct PaillierKey {
    pub p: Vec<u8>,
    pub q: Vec<u8>,
    pub n: Vec<u8>,
    pub nn: Vec<u8>,
}

/// Mathematical view of a [`PaillierKey`].
pub struct PaillierKeyView {
    pub p: Seq<u8>,
    pub q: Seq<u8>,
    pub n: Seq<u8>,
    pub nn: Seq<u8>,
}

impl View for PaillierKey {
    type V = PaillierKeyView;

    open spec fn view(&self) -> PaillierKeyView {
        PaillierKeyView { p: self.p@, q: self.q@, n: self.n@, nn: self.nn@ }
    }
}

impl PaillierKeyView {
    /// Whether the prime pair imports: both are digit strings whose
    /// product has the bit length a pair of 1024-bit primes yields,
    /// 2047 or 2048 bits.
    pub open spec fn import_ok(p: Seq<u8>, q: Seq<u8>) -> bool {
        &&& is_dec(p)
        &&& is_dec(q)
        &&& 2047 <= bitlen(dec_val(p) * dec_val(q)) <= 2048
    }

    /// The key imported from a prime pair: modulus and its square in
    /// canonical decimal form.
    pub open spec fn import_of(p: Seq<u8>, q: Seq<u8>) -> PaillierKeyView {
        let n = dec_val(p) * dec_val(q);
        PaillierKeyView { p, q, n: dec_of(n), nn: dec_of(n * n) }
    }

    /// Internal validity: the key is exactly what its own prime pair
    /// imports to.
    pub open spec fn wf(self) -> bool {
        &&& Self::import_ok(self.p, self.q)
        &&& self == Self::import_of(self.p, self.q)
    }
}

impl PaillierKey {
    /// Import a key from two primes given as decimal digit strings.
    ///
    /// Succeeds exactly when both strings are decimal and their product
    /// has 2047 or 2048 bits; the modulus and its square are then
    /// computed and cached.  No partial key is ever returned.
    pub fn import(p: Vec<u8>, q: Vec<u8>) -> (r: Result<PaillierKey, CoreError>)
        ensures
            (r is Ok) == PaillierKeyView::import_ok(p@, q@),
            r matches Ok(k) ==> k@ == PaillierKeyView::import_of(p@, q@) && k@.wf(),
            r matches Err(e) ==> e == CoreError::InvalidModulus,
    {
        if !check_dec(&p) || !check_dec(&q) {
            return Err(CoreError::InvalidModulus);
        }
        let n = match big_paillier_modulus(p.as_slice(), q.as_slice()) {
            Some(n) => n,
            None => {
                return Err(CoreError::InvalidModulus);
            },
        };
        proof {
            lemma_dec_of_val(dec_val(p@) * dec_val(q@));
        }
        let nn = big_mul_dec(n.as_slice(), n.as_slice());
        proof {
            assert(dec_val(n@) == dec_val(p@) * dec_val(q@));
        }
        Ok(PaillierKey { p, q, n, nn })
    }
}

/// Whether a byte string is a valid compressed point of `c`: the fixed
/// width of the curve's encoding, and accepted by the curve library.
pub open spec fn point_wf(b: Seq<u8>, c: Curve) -> bool {
    match c {
        Curve::Secp256k1 => b.len() == 33 && sec1_point_ok(b),
        Curve::Ed25519 => b.len() == 32 && ed_point_ok(b),
    }
}

/// Whether a byte vector is a valid compressed point of `c`.
pub fn check_point(b: &Vec<u8>, c: &Curve) -> (r: bool)
    ensures
        r == point_wf(b@, *c),
{
    match c {
        Curve::Secp256k1 => b.len() == 33 && secp_point_check(b.as_slice()),
        Curve::Ed25519 => b.len() == 32 && ed_point_check(b.as_slice()),
    }
}

/// The durable output of a completed keygen or reshare round for one
/// party.  Immutable once constructed; only a later reshare supersedes
/// it.
///
/// The commitment table maps party index `i` (1-based) to the Feldman
/// commitments of that party's secret polynomial: entry `i` lives at
/// position `i - 1`.  Scalars are 32-byte big-endian strings below the
/// curve's group order; points are compressed encodings validated by the
/// curve library.
#[derive(Clone, Debug, PartialEq, Eq)]
pub struct Keystore {
    pub party_index: u64,
    pub ui: Vec<u8>,
    pub xi: Vec<u8>,
    pub commitment_table: Vec<Vec<Vec<u8>>>,
    pub paillier: Option<PaillierKey>,
    pub peer_moduli: Vec<Vec<u8>>,
    pub algorithm: Algorithm,
}

/// Mathematical view of a [`Keystore`].
pub struct KeystoreView {
    pub party_index: u64,
    pub ui: Seq<u8>,
    pub xi: Seq<u8>,
    pub commitment_table: Seq<Seq<Seq<u8>>>,
    pub paillier: Option<PaillierKeyView>,
    pub peer_moduli: Seq<Seq<u8>>,
    pub algorithm: Algorithm,
}

impl View for Keystore {
    type V = KeystoreView;

    open spec fn view(&self) -> KeystoreView {
        KeystoreView {
            party_index: self.party_index,
            ui: self.ui@,
            xi: self.xi@,
            commitment_table: self.commitment_table.deep_view(),
            paillier: match self.paillier {
                Some(pk) => Some(pk@),
                None => None,
            },
            peer_moduli: self.peer_moduli.deep_view(),
            algorithm: self.algorithm,
        }
    }
}

impl KeystoreView {
    /// How many parties the round that produced this keystore had.
    pub open spec fn n_parties(self) -> nat {
        self.commitment_table.len()
    }

    /// Length of every commitment sequence: one point per polynomial
    /// coefficient, threshold + 1 in all.
    pub open spec fn n_coms(self) -> nat {
        if self.commitment_table.len() == 0 {
            0
        } else {
            self.commitment_table[0].len()
        }
    }

    /// Shape of the commitment table and the party index: at least one
    /// party, one commitment per polynomial coefficient, all sequences of
    /// one length, and the index inside the roster.
    pub open spec fn shape_ok(self) -> bool {
        &&& 1 <= self.party_index <= self.commitment_table.len()
        &&& self.n_coms() >= 1
        &&& forall|i: int|
            0 <= i < self.commitment_table.len() ==> (#[trigger] self.commitment_table[i]).len()
                == self.n_coms()
    }

    /// Both scalars are 32 bytes below the curve's group order.
    pub open spec fn scalars_ok(self) -> bool {
        &&& self.ui.len() == 32
        &&& bytes_val(self.ui) < curve_order_val(self.algorithm.curve)
        &&& self.xi.len() == 32
        &&& bytes_val(self.xi) < curve_order_val(self.algorithm.curve)
    }

    /// Every commitment is a valid compressed point of the curve.
    pub open spec fn points_ok(self) -> bool {
        forall|i: int, j: int|
            0 <= i < self.commitment_table.len() && 0 <= j < self.commitment_table[i].len()
                ==> point_wf(#[trigger] self.commitment_table[i][j], self.algorithm.curve)
    }

    /// The Paillier material agrees with the scheme: present, valid and
    /// of bounded pickled size for the Paillier-assisted scheme, absent
    /// otherwise.
    pub open spec fn paillier_ok(self) -> bool {
        if self.algorithm.spec_has_paillier() {
            &&& self.paillier matches Some(pk) && pk.wf()
            &&& self.peer_moduli.len() == self.commitment_table.len()
            &&& forall|i: int|
                0 <= i < self.peer_moduli.len() ==> is_dec(#[trigger] self.peer_moduli[i])
            &&& (self.paillier matches Some(pk) && misc_pickle(pk.p, pk.q, self.peer_moduli).len()
                <= MISC_MAX)
        } else {
            &&& self.paillier is None
            &&& self.peer_moduli.len() == 0
        }
    }

    /// The error [`Keystore::new`] reports for an invalid candidate: the
    /// first failing group of checks names it.
    pub open spec fn construct_err(self) -> CoreError {
        if !self.shape_ok() {
            CoreError::MalformedLegacyRecord
        } else if !self.scalars_ok() {
            CoreError::InvalidScalarLength
        } else if !self.points_ok() {
            CoreError::NotOnCurve
        } else {
            CoreError::InvalidModulus
        }
    }

    /// Internal validity of a keystore.
    pub open spec fn wf(self) -> bool {
        &&& self.shape_ok()
        &&& self.scalars_ok()
        &&& self.points_ok()
        &&& self.paillier_ok()
    }
}

/// The view a [`Keystore::new`] call would give its parts.
pub open spec fn candidate_view(
    algorithm: Algorithm,
    party_index: u64,
    ui: Seq<u8>,
    xi: Seq<u8>,
    commitment_table: Seq<Seq<Seq<u8>>>,
    paillier: Option<PaillierKeyView>,
    peer_moduli: Seq<Seq<u8>>,
) -> KeystoreView {
    KeystoreView { party_index, ui, xi, commitment_table, paillier, peer_moduli, algorithm }
}

/// Check every part of a keystore's invariant.
///
/// Returns nothing on success; the first failing group of checks names
/// the error, as [`KeystoreView::construct_err`] states.
pub fn check_keystore(k: &Keystore) -> (res: Result<(), CoreError>)
    ensures
        (res is Ok) == k@.wf(),
        res matches Err(e) ==> e == k@.construct_err(),
{
    let ghost v = k@;
    // Shape.
    if k.commitment_table.len() == 0 || k.party_index == 0
        || k.party_index > k.commitment_table.len() as u64 {
        proof {
            assert(!v.shape_ok());
        }
        return Err(CoreError::MalformedLegacyRecord);
    }
    let n_coms = k.commitment_table[0].len();
    if n_coms == 0 {
        proof {
            assert(v.n_coms() == 0);
        }
        return Err(CoreError::MalformedLegacyRecord);
    }
    let mut i: usize = 0;
    while i < k.commitment_table.len()
        invariant
            0 <= i <= k.commitment_table.len(),
            v == k@,
            1 <= k.party_index <= k.commitment_table.len() as u64,
            n_coms == v.n_coms(),
            n_coms >= 1,
            forall|t: int| 0 <= t < i ==> (#[trigger] v.commitment_table[t]).len() == n_coms,
        decreases k.commitment_table.len() - i,
    {
        if k.commitment_table[i].len() != n_coms {
            proof {
                assert(v.commitment_table[i as int].len() != v.n_coms());
            }
            return Err(CoreError::MalformedLegacyRecord);
        }
        i += 1;
    }
    proof {
        assert(v.shape_ok());
    }
    // Scalars.
    if k.ui.len() != 32 || k.xi.len() != 32 {
        return Err(CoreError::InvalidScalarLength);
    }
    if !scalar_in_range(&k.ui, &k.algorithm.curve) || !scalar_in_range(&k.xi, &k.algorithm.curve) {
        return Err(CoreError::InvalidScalarLength);
    }
    proof {
        assert(v.scalars_ok());
    }
    // Points.
    let mut i: usize = 0;
    while i < k.commitment_table.len()
        invariant
            0 <= i <= k.commitment_table.len(),
            v == k@,
            v.shape_ok(),
            v.scalars_ok(),
            forall|t: int, u: int|
                0 <= t < i && 0 <= u < v.commitment_table[t].len() ==> point_wf(
                    #[trigger] v.commitment_table[t][u],
                    k.algorithm.curve,
                ),
        decreases k.commitment_table.len() - i,
    {
        let row = &k.commitment_table[i];
        let mut j: usize = 0;
        while j < row.len()
            invariant
                0 <= j <= row@.len(),
                v == k@,
                v.shape_ok(),
                v.scalars_ok(),
                0 <= i < k.commitment_table@.len(),
                row == k.commitment_table@[i as int],
                forall|u: int|
                    0 <= u < j ==> point_wf(
                        #[trigger] v.commitment_table[i as int][u],
                        k.algorithm.curve,
                    ),
            decreases row.len() - j,
        {
            if !check_point(&row[j], &k.algorithm.curve) {
                proof {
                    assert(v.commitment_table[i as int].len() == row@.len());
                    assert(v.commitment_table[i as int][j as int] == row@[j as int]@);
                    assert(!v.points_ok());
                }
                return Err(CoreError::NotOnCurve);
            }
            proof {
                assert(v.commitment_table[i as int][j as int] == row@[j as int]@);
            }
            j += 1;
        }
        proof {
            assert(v.commitment_table[i as int].len() == row@.len());
        }
        i += 1;
    }
    proof {
        assert(v.points_ok());
    }
    // Paillier material.
    if k.algorithm.has_paillier() {
        match &k.paillier {
            Some(pk) => {
                if !check_dec(&pk.p) || !check_dec(&pk.q) {
                    return Err(CoreError::InvalidModulus);
                }
                let n2 = match big_paillier_modulus(pk.p.as_slice(), pk.q.as_slice()) {
                    Some(n2) => n2,
                    None => {
                        return Err(CoreError::InvalidModulus);
                    },
                };
                proof {
                    lemma_dec_of_val(dec_val(pk.p@) * dec_val(pk.q@));
                }
                let nn2 = big_mul_dec(n2.as_slice(), n2.as_slice());
                if !bytes_eq(&pk.n, &n2) || !bytes_eq(&pk.nn, &nn2) {
                    proof {
                        let prod = dec_val(pk.p@) * dec_val(pk.q@);
                        assert(dec_val(n2@) == prod);
                        assert(pk@ != PaillierKeyView::import_of(pk.p@, pk.q@));
                        assert(!v.wf());
                    }
                    return Err(CoreError::InvalidModulus);
                }
            },
            None => {
                return Err(CoreError::InvalidModulus);
            },
        }
        if k.peer_moduli.len() != k.commitment_table.len() {
            return Err(CoreError::InvalidModulus);
        }
        let mut i: usize = 0;
        while i < k.peer_moduli.len()
            invariant
                0 <= i <= k.peer_moduli.len(),
                v == k@,
                v.shape_ok(),
                v.scalars_ok(),
                v.points_ok(),
                k.algorithm.spec_has_paillier(),
                v.paillier matches Some(pkv) && pkv.wf(),
                v.peer_moduli.len() == v.commitment_table.len(),
                forall|t: int| 0 <= t < i ==> is_dec(#[trigger] v.peer_moduli[t]),
            decreases k.peer_moduli.len() - i,
        {
            if !check_dec(&k.peer_moduli[i]) {
                proof {
                    assert(v.peer_moduli[i as int] == k.peer_moduli@[i as int]@);
                }
                return Err(CoreError::InvalidModulus);
            }
            proof {
                assert(v.peer_moduli[i as int] == k.peer_moduli@[i as int]@);
            }
            i += 1;
        }
        match &k.paillier {
            Some(pk) => {
                let blob = misc_to_pickle(&pk.p, &pk.q, &k.peer_moduli);
                if blob.len() > MISC_MAX {
                    return Err(CoreError::InvalidModulus);
                }
            },
            None => {
                return Err(CoreError::InvalidModulus);
            },
        }
    } else {
        if k.paillier.is_some() || k.peer_moduli.len() != 0 {
            return Err(CoreError::InvalidModulus);
        }
    }
    proof {
        assert(v.paillier_ok());
    }
    Ok(())
}

impl Keystore {
    /// Build a keystore after checking every part of its invariant.
    ///
    /// Succeeds exactly when the parts form a well-formed keystore of
    /// `algorithm`; the first failing group of checks names the error.
    /// No partially constructed keystore is ever returned.
    pub fn new(
        algorithm: Algorithm,
        party_index: u64,
        ui: Vec<u8>,
        xi: Vec<u8>,
        commitment_table: Vec<Vec<Vec<u8>>>,
        paillier: Option<PaillierKey>,
        peer_moduli: Vec<Vec<u8>>,
    ) -> (r: Result<Keystore, CoreError>)
        ensures
            ({
                let v = candidate_view(
                    algorithm,
                    party_index,
                    ui@,
                    xi@,
                    commitment_table.deep_view(),
                    match &paillier {
                        Some(pk) => Some(pk@),
                        None => None,
                    },
                    peer_moduli.deep_view(),
                );
                &&& (r is Ok) == v.wf()
                &&& (r matches Ok(k) ==> k@ == v)
                &&& (r matches Err(e) ==> e == v.construct_err())
            }),
    {
        let ks = Keystore {
            party_index,
            ui,
            xi,
            commitment_table,
            paillier,
            peer_moduli,
            algorithm,
        };
        match check_keystore(&ks) {
            Ok(()) => Ok(ks),
            Err(e) => Err(e),
        }
    }
}

} // verus!
