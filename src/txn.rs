use base64::Engine;
use solana_sdk::hash;
use solana_sdk::instruction as si;
use solana_sdk::message::Message;
use solana_sdk::pubkey::Pubkey;
use solana_sdk::signature::Signature;
use solana_sdk::transaction::Transaction;
use vstd::prelude::*;

use crate::error::PipelineError;
use crate::keypair::public_part;
use crate::keypair::signature_of;
use crate::keypair::signature_verifies;
use crate::keypair::verify_signature;
use crate::keypair::valid_key_bytes;
use crate::keypair::Keypair;

verus! {

#[verifier::external_type_specification]
#[verifier::external_body]
pub struct ExMessage(solana_sdk::message::Message);

#[verifier::external_type_specification]
#[verifier::external_body]
pub struct ExTransaction(solana_sdk::transaction::Transaction);

/// The standard base-64 text (with padding) of the bytes.
pub uninterp spec fn base64_of(b: Seq<u8>) -> Seq<char>;

/// The message that the instructions, fee payer and checkpoint compile to:
/// its bytes, and its required signers in slot order.
pub uninterp spec fn compiled_of(ixs: Seq<Instruction>, fee_payer: Seq<u8>, blockhash: Seq<u8>) -> (
    Seq<u8>,
    Seq<[u8; 32]>,
);

/// An account that an instruction reads or writes.
#[derive(Clone, Copy, Debug)]
pub struct AccountMeta {
    pub pubkey: [u8; 32],
    pub is_signer: bool,
    pub is_writable: bool,
}

/// One call into an on-chain program.
#[derive(Clone, Debug)]
pub struct Instruction {
    pub program_id: [u8; 32],
    pub accounts: Vec<AccountMeta>,
    pub data: Vec<u8>,
}

/// How many account entries the instructions list, all together.
pub open spec fn account_entries(ixs: Seq<Instruction>) -> nat
    decreases ixs.len(),
{
    if ixs.len() == 0 {
        0
    } else {
        account_entries(ixs.drop_last()) + ixs.last().accounts@.len()
    }
}

/// The message format counts its keys in single bytes, so every key that
/// the instructions and the fee payer can bring must fit in that count; it
/// prefixes each instruction's data with a 16-bit length.
pub open spec fn fits_message(ixs: Seq<Instruction>) -> bool {
    &&& 1 + ixs.len() + account_entries(ixs) <= 255
    &&& forall|i: int| 0 <= i < ixs.len() ==> (#[trigger] ixs[i]).data@.len() <= 65535
}

/// Some instruction marks the key `k` as one that must sign.
pub open spec fn marked_signer(ixs: Seq<Instruction>, k: Seq<u8>) -> bool {
    exists|a: int, b: int|
        0 <= a < ixs.len() && 0 <= b < ixs[a].accounts@.len() && ixs[a].accounts@[b].is_signer
            && (#[trigger] ixs[a].accounts@[b]).pubkey@ == k
}

/// No key appears twice.
pub open spec fn distinct_keys(ks: Seq<[u8; 32]>) -> bool {
    forall|i: int, j: int| 0 <= i < ks.len() && 0 <= j < ks.len() && i != j ==> ks[i]@ != ks[j]@
}

/// The slot holds exactly the signature `v`.
pub open spec fn holds_signature(o: Option<[u8; 64]>, v: Seq<u8>) -> bool {
    match o {
        Some(s) => s@ == v,
        None => false,
    }
}

/// Some key among `keys` has the public identity `p`.
pub open spec fn has_key_for(keys: Seq<Keypair>, p: Seq<u8>) -> bool {
    exists|j: int| 0 <= j < keys.len() && public_part(#[trigger] keys[j]@) == p
}

/// Every key is valid key material and belongs to one of the signers.
pub open spec fn keys_fit(keys: Seq<Keypair>, signers: Seq<[u8; 32]>) -> bool {
    forall|j: int|
        0 <= j < keys.len() ==> valid_key_bytes(#[trigger] keys[j]@) && exists|i: int|
            0 <= i < signers.len() && signers[i]@ == public_part(keys[j]@)
}

/// Every key is valid key material whose identity is the fee payer or an
/// account that an instruction marks as a signer.
pub open spec fn keys_required(keys: Seq<Keypair>, ixs: Seq<Instruction>, fee_payer: Seq<u8>) -> bool {
    forall|j: int|
        0 <= j < keys.len() ==> valid_key_bytes(#[trigger] keys[j]@) && (public_part(keys[j]@)
            == fee_payer || marked_signer(ixs, public_part(keys[j]@)))
}

/// `after` is `before` with every signer that has a key in `keys` signed by
/// such a key over `msg`, and every other slot left as it was.
pub open spec fn signed_slots(
    before: Seq<Option<[u8; 64]>>,
    after: Seq<Option<[u8; 64]>>,
    signers: Seq<[u8; 32]>,
    keys: Seq<Keypair>,
    msg: Seq<u8>,
) -> bool {
    &&& after.len() == before.len()
    &&& forall|i: int|
        0 <= i < after.len() ==> if has_key_for(keys, signers[i]@) {
            exists|j: int|
                0 <= j < keys.len() && public_part(keys[j]@) == signers[i]@ && holds_signature(
                    #[trigger] after[i],
                    signature_of(keys[j]@, msg),
                )
        } else {
            after[i] == before[i]
        }
}

/// The compact-u16 encoding of a count: seven bits a byte, low bits first,
/// the high bit set on every byte but the last.
pub open spec fn compact_len(n: nat) -> Seq<u8> {
    if n < 128 {
        seq![n as u8]
    } else if n < 16384 {
        seq![(n % 128 + 128) as u8, (n / 128) as u8]
    } else {
        seq![(n % 128 + 128) as u8, ((n / 128) % 128 + 128) as u8, (n / 16384) as u8]
    }
}

/// The signatures one after another.
pub open spec fn flat_signatures(sigs: Seq<[u8; 64]>) -> Seq<u8>
    decreases sigs.len(),
{
    if sigs.len() == 0 {
        Seq::empty()
    } else {
        flat_signatures(sigs.drop_last()) + sigs.last()@
    }
}

/// What a slot puts on the wire: its signature, or 64 zero bytes.
pub open spec fn slot_bytes(o: Option<[u8; 64]>) -> Seq<u8> {
    match o {
        Some(s) => s@,
        None => zero_signature(),
    }
}

/// The slots one after another, as they go on the wire.
pub open spec fn flat_slots(slots: Seq<Option<[u8; 64]>>) -> Seq<u8>
    decreases slots.len(),
{
    if slots.len() == 0 {
        Seq::empty()
    } else {
        flat_slots(slots.drop_last()) + slot_bytes(slots.last())
    }
}

/// The bytes of a transaction on the wire: the slot count, the slots, the
/// message.
pub open spec fn wire_bytes(slots: Seq<Option<[u8; 64]>>, msg: Seq<u8>) -> Seq<u8> {
    compact_len(slots.len()) + flat_slots(slots) + msg
}

/// The 64 zero bytes that stand in an empty slot on the wire.
pub open spec fn zero_signature() -> Seq<u8> {
    Seq::new(64, |_i: int| 0u8)
}

/// Every filled slot holds a signature that verifies under its signer's key.
pub open spec fn slots_verify(sigs: Seq<Option<[u8; 64]>>, signers: Seq<[u8; 32]>, msg: Seq<u8>) -> bool {
    forall|i: int|
        0 <= i < sigs.len() ==> match #[trigger] sigs[i] {
            Some(s) => signature_verifies(signers[i]@, msg, s@),
            None => true,
        }
}

/// Every slot holds a signature that verifies under its signer's key.
pub open spec fn all_verify(sigs: Seq<Option<[u8; 64]>>, signers: Seq<[u8; 32]>, msg: Seq<u8>) -> bool {
    &&& sigs.len() == signers.len()
    &&& forall|i: int|
        0 <= i < sigs.len() ==> match #[trigger] sigs[i] {
            Some(s) => signature_verifies(signers[i]@, msg, s@),
            None => false,
        }
}

/// Every slot holds a signature.
pub open spec fn all_signed(sigs: Seq<Option<[u8; 64]>>) -> bool {
    forall|i: int| 0 <= i < sigs.len() ==> (#[trigger] sigs[i]) is Some
}

/// No slot holds a signature.
pub open spec fn none_signed(sigs: Seq<Option<[u8; 64]>>) -> bool {
    forall|i: int| 0 <= i < sigs.len() ==> (#[trigger] sigs[i]) is None
}

/// Relies on `Message::new_with_blockhash` and `Message::serialize`, which
/// depend on their arguments alone (keys are ordered through a `BTreeMap`): the
/// required signers are the first `num_required_signatures` account keys,
/// which are distinct, start with the fee payer, and are the fee payer with
/// every account that an instruction marks as a signer. Compiling panics
/// only when a key count passes 255, and serializing only when a length
/// passes 65535.
#[verifier::external_body]
fn compile_message(ixs: &Vec<Instruction>, fee_payer: &[u8; 32], blockhash: &[u8; 32]) -> (r: (
    Message,
    Vec<u8>,
    Vec<[u8; 32]>,
))
    requires
        fits_message(ixs@),
    ensures
        r.1@ == compiled_of(ixs@, fee_payer@, blockhash@).0,
        r.2@ == compiled_of(ixs@, fee_payer@, blockhash@).1,
        r.2@.len() >= 1,
        r.2@[0]@ == fee_payer@,
        distinct_keys(r.2@),
        forall|i: int| 1 <= i < r.2@.len() ==> marked_signer(ixs@, #[trigger] r.2@[i]@),
        forall|k: Seq<u8>| marked_signer(ixs@, k) ==> exists|i: int| 0 <= i < r.2@.len() && #[trigger] r.2@[i]@ == k,
{
    let meta = |a: &AccountMeta| si::AccountMeta { pubkey: Pubkey::from(a.pubkey), is_signer: a.is_signer, is_writable: a.is_writable };
    let ixs: Vec<_> = ixs.iter().map(|ix| si::Instruction {
        program_id: Pubkey::from(ix.program_id), accounts: ix.accounts.iter().map(meta).collect(), data: ix.data.clone() }).collect();
    let m = Message::new_with_blockhash(&ixs, Some(&Pubkey::from(*fee_payer)), &hash::Hash::from(*blockhash));
    let signers = m.account_keys[..m.header.num_required_signatures as usize].iter().map(|k| k.to_bytes()).collect();
    let bytes = m.serialize();
    (m, bytes, signers)
}

/// Relies on `bincode::serialize` of a `Transaction`: the signature count as
/// a compact-u16 (`short_vec`), each signature's 64 bytes, then the message
/// in bincode, which is what `Message::serialize` gave when `new_unsigned`
/// stored the message with its bytes. `short_vec` refuses a count above
/// 65535, and that is the one error, since the message serialized once already.
#[verifier::external_body]
fn serialize_transaction(t: &Txn, sigs: &Vec<[u8; 64]>) -> (r: Option<Vec<u8>>)
    ensures
        sigs@.len() > 65535 <==> r is None,
        r matches Some(b) ==> b@ == compact_len(sigs@.len()) + flat_signatures(sigs@)
            + t.message_view(),
{
    let signatures = sigs.iter().map(|s| Signature::from(*s)).collect();
    bincode::serialize(&Transaction { signatures, message: t.message.clone() }).ok()
}

/// Relies on `base64::prelude::BASE64_STANDARD.encode`: padded standard
/// base-64, four characters for every started group of three bytes.
#[verifier::external_body]
fn base64_encode(b: &Vec<u8>) -> (r: String)
    ensures
        r@ == base64_of(b@),
        r@.len() == 4 * ((b@.len() + 2) / 3),
{
    base64::prelude::BASE64_STANDARD.encode(b)
}

/// Relies on the fields of `Transaction`: the message and the signatures as
/// they stand, in slot order.
#[verifier::external_body]
fn assemble_transaction(m: &Message, sigs: &Vec<[u8; 64]>) -> (r: Transaction) {
    Transaction { signatures: sigs.iter().map(|s| Signature::from(*s)).collect(), message: m.clone() }
}

/// A transaction: a compiled message, the exact bytes that signers sign, the
/// required signers in slot order, and one signature slot per signer.
pub struct Txn {
    message: Message,
    message_bytes: Vec<u8>,
    signers: Vec<[u8; 32]>,
    blockhash: [u8; 32],
    signatures: Vec<Option<[u8; 64]>>,
}

impl Txn {
    /// The bytes that every signer signs.
    pub closed spec fn message_view(&self) -> Seq<u8> {
        self.message_bytes@
    }

    /// The required signers, in slot order.
    pub closed spec fn signers_view(&self) -> Seq<[u8; 32]> {
        self.signers@
    }

    /// The signature slots, in signer order.
    pub closed spec fn signatures_view(&self) -> Seq<Option<[u8; 64]>> {
        self.signatures@
    }

    /// The freshness checkpoint the message was compiled with.
    pub closed spec fn blockhash_view(&self) -> [u8; 32] {
        self.blockhash
    }

    /// One slot per signer, at least one signer (the fee payer), no signer
    /// twice, and every filled slot verifies under its signer's key.
    pub open spec fn wf(&self) -> bool {
        &&& self.signatures_view().len() == self.signers_view().len()
        &&& self.signers_view().len() >= 1
        &&& distinct_keys(self.signers_view())
        &&& slots_verify(self.signatures_view(), self.signers_view(), self.message_view())
    }

    /// Compiles the instructions with the fee payer and checkpoint into an
    /// unsigned transaction: one empty slot per required signer, the fee payer
    /// first, then each account that an instruction marks as a signer.
    pub fn new_unsigned(instructions: &Vec<Instruction>, fee_payer: [u8; 32], blockhash: [u8; 32]) -> (r: Txn)
        requires
            fits_message(instructions@),
        ensures
            r.wf(),
            r.blockhash_view() == blockhash,
            r.message_view() == compiled_of(instructions@, fee_payer@, blockhash@).0,
            r.signers_view() == compiled_of(instructions@, fee_payer@, blockhash@).1,
            r.signers_view()[0]@ == fee_payer@,
            forall|i: int|
                1 <= i < r.signers_view().len() ==> marked_signer(
                    instructions@,
                    #[trigger] r.signers_view()[i]@,
                ),
            forall|k: Seq<u8>|
                marked_signer(instructions@, k) ==> exists|i: int|
                    0 <= i < r.signers_view().len() && #[trigger] r.signers_view()[i]@ == k,
            none_signed(r.signatures_view()),
    {
        let (message, message_bytes, signers) = compile_message(instructions, &fee_payer, &blockhash);
        let mut signatures: Vec<Option<[u8; 64]>> = Vec::new();
        let mut i: usize = 0;
        while i < signers.len()
            invariant
                i <= signers@.len(),
                signatures@.len() == i,
                none_signed(signatures@),
            decreases signers@.len() - i,
        {
            signatures.push(None);
            i = i + 1;
        }
        Txn { message, message_bytes, signers, blockhash, signatures }
    }

    /// The bytes that every signer signs.
    pub fn message_data(&self) -> (r: &Vec<u8>)
        ensures
            r@ == self.message_view(),
    {
        &self.message_bytes
    }

    /// The required signers, in slot order.
    pub fn signers(&self) -> (r: &Vec<[u8; 32]>)
        ensures
            r@ == self.signers_view(),
    {
        &self.signers
    }

    /// The signature slots, in signer order.
    pub fn signatures(&self) -> (r: &Vec<Option<[u8; 64]>>)
        ensures
            r@ == self.signatures_view(),
    {
        &self.signatures
    }

    /// The freshness checkpoint the message was compiled with.
    pub fn blockhash(&self) -> (r: [u8; 32])
        ensures
            r == self.blockhash_view(),
    {
        self.blockhash
    }

    /// Whether every required signer has signed.
    pub fn is_signed(&self) -> (r: bool)
        ensures
            r == all_signed(self.signatures_view()),
    {
        let mut i: usize = 0;
        while i < self.signatures.len()
            invariant
                i <= self.signatures@.len(),
                forall|j: int| 0 <= j < i ==> (#[trigger] self.signatures@[j]) is Some,
            decreases self.signatures@.len() - i,
        {
            if self.signatures[i].is_none() {
                return false;
            }
            i = i + 1;
        }
        true
    }

    /// The validity check: every required signer's slot holds a signature
    /// of the message that verifies under that signer's key. On a
    /// well-formed transaction this is the same as every slot being filled.
    pub fn verify(&self) -> (r: bool)
        ensures
            r == all_verify(self.signatures_view(), self.signers_view(), self.message_view()),
            self.wf() ==> (r == all_signed(self.signatures_view())),
    {
        if self.signatures.len() != self.signers.len() {
            return false;
        }
        let mut i: usize = 0;
        while i < self.signatures.len()
            invariant
                i <= self.signatures@.len(),
                self.signatures@.len() == self.signers@.len(),
                forall|j: int|
                    0 <= j < i ==> match #[trigger] self.signatures@[j] {
                        Some(s) => signature_verifies(self.signers@[j]@, self.message_bytes@, s@),
                        None => false,
                    },
            decreases self.signatures@.len() - i,
        {
            match self.signatures[i] {
                Some(s) => {
                    if !verify_signature(&self.signers[i], self.message_bytes.as_slice(), &s) {
                        return false;
                    }
                },
                None => return false,
            }
            i = i + 1;
        }
        true
    }

    /// The signatures as they go on the wire: an empty slot is 64 zero bytes.
    pub fn wire_signatures(&self) -> (r: Vec<[u8; 64]>)
        ensures
            r@.len() == self.signatures_view().len(),
            forall|i: int|
                0 <= i < r@.len() ==> match self.signatures_view()[i] {
                    Some(s) => #[trigger] r@[i] == s,
                    None => r@[i]@ == zero_signature(),
                },
    {
        let mut out: Vec<[u8; 64]> = Vec::new();
        let mut i: usize = 0;
        while i < self.signatures.len()
            invariant
                i <= self.signatures@.len(),
                out@.len() == i,
                forall|j: int|
                    0 <= j < i ==> match self.signatures@[j] {
                        Some(s) => #[trigger] out@[j] == s,
                        None => out@[j]@ == zero_signature(),
                    },
            decreases self.signatures@.len() - i,
        {
            let s = match self.signatures[i] {
                Some(s) => s,
                None => {
                    let z = [0u8; 64];
                    assert(z@ =~= zero_signature());
                    z
                },
            };
            out.push(s);
            i = i + 1;
        }
        out
    }

    /// The ledger's own transaction value, with the signatures as they stand.
    pub fn to_transaction(&self) -> (r: Transaction) {
        let sigs = self.wire_signatures();
        assemble_transaction(&self.message, &sigs)
    }

    /// Signs the message with each key, in the order given, and puts each
    /// signature in the slot of the signer whose identity the key holds. When
    /// a key is not valid key material or belongs to no required signer,
    /// nothing is signed.
    pub fn try_partial_sign(&mut self, keys: &Vec<Keypair>) -> (r: Result<(), PipelineError>)
        requires
            old(self).wf(),
        ensures
            final(self).wf(),
            r is Ok <==> keys_fit(keys@, old(self).signers_view()),
            r is Err ==> r == Err::<(), PipelineError>(PipelineError::SigningFailed) && *final(self)
                == *old(self),
            final(self).message_view() == old(self).message_view(),
            final(self).signers_view() == old(self).signers_view(),
            final(self).blockhash_view() == old(self).blockhash_view(),
            r is Ok ==> signed_slots(
                old(self).signatures_view(),
                final(self).signatures_view(),
                old(self).signers_view(),
                keys@,
                old(self).message_view(),
            ),
    {
        let mut positions: Vec<usize> = Vec::new();
        let mut j: usize = 0;
        while j < keys.len()
            invariant
                j <= keys@.len(),
                positions@.len() == j,
                *self == *old(self),
                old(self).wf(),
                forall|jj: int|
                    0 <= jj < j ==> valid_key_bytes(#[trigger] keys@[jj]@),
                forall|jj: int|
                    0 <= jj < j ==> (#[trigger] positions@[jj] as int) < self.signers@.len()
                        && self.signers@[positions@[jj] as int]@ == public_part(keys@[jj]@),
            decreases keys@.len() - j,
        {
            let pk = match keys[j].try_pubkey() {
                Ok(p) => p,
                Err(_) => return Err(PipelineError::SigningFailed),
            };
            match position_of(&self.signers, &pk) {
                Some(p) => {
                    positions.push(p);
                    assert(positions@[j as int] == p);
                },
                None => {
                    assert(!keys_fit(keys@, self.signers@)) by {
                        assert(valid_key_bytes(keys@[j as int]@));
                    }
                    return Err(PipelineError::SigningFailed);
                },
            }
            j = j + 1;
        }
        assert(keys_fit(keys@, self.signers@)) by {
            assert forall|jj: int| 0 <= jj < keys@.len() implies valid_key_bytes(
                #[trigger] keys@[jj]@,
            ) && exists|i: int|
                0 <= i < self.signers@.len() && self.signers@[i]@ == public_part(keys@[jj]@) by {
                let i = positions@[jj] as int;
                assert(self.signers@[i]@ == public_part(keys@[jj]@));
            }
        }
        let ghost before = self.signatures@;
        let ghost signers = self.signers@;
        let ghost msg = self.message_bytes@;
        let mut k: usize = 0;
        while k < keys.len()
            invariant
                k <= keys@.len(),
                positions@.len() == keys@.len(),
                self.message_bytes == old(self).message_bytes,
                self.signers == old(self).signers,
                self.blockhash == old(self).blockhash,
                self.wf(),
                self.signers@ == signers,
                self.message_bytes@ == msg,
                distinct_keys(signers),
                self.signatures@.len() == signers.len(),
                before.len() == signers.len(),
                slots_verify(self.signatures@, signers, msg),
                forall|jj: int|
                    0 <= jj < keys@.len() ==> valid_key_bytes(#[trigger] keys@[jj]@),
                forall|jj: int|
                    0 <= jj < keys@.len() ==> (#[trigger] positions@[jj] as int) < signers.len()
                        && signers[positions@[jj] as int]@ == public_part(keys@[jj]@),
                forall|i: int|
                    0 <= i < signers.len() ==> if has_key_for(keys@.take(k as int), signers[i]@) {
                        exists|jj: int|
                            0 <= jj < k && public_part(keys@[jj]@) == signers[i]@
                                && holds_signature(
                                #[trigger] self.signatures@[i],
                                signature_of(keys@[jj]@, msg),
                            )
                    } else {
                        self.signatures@[i] == before[i]
                    },
            decreases keys@.len() - k,
        {
            let s = match keys[k].try_sign_message(self.message_bytes.as_slice()) {
                Ok(s) => s,
                Err(e) => return Err(e),
            };
            let p = positions[k];
            let ghost prev = self.signatures@;
            self.signatures.set(p, Some(s));
            proof {
                assert forall|i: int| 0 <= i < self.signatures@.len() implies match #[trigger] self.signatures@[i] {
                    Some(x) => signature_verifies(signers[i]@, msg, x@),
                    None => true,
                } by {
                    if i != p as int {
                        assert(self.signatures@[i] == prev[i]);
                    }
                }
                let kk = k as int;
                assert forall|i: int| 0 <= i < signers.len() implies if has_key_for(
                    keys@.take(kk + 1),
                    signers[i]@,
                ) {
                    exists|jj: int|
                        0 <= jj < kk + 1 && public_part(keys@[jj]@) == signers[i]@
                            && holds_signature(
                            #[trigger] self.signatures@[i],
                            signature_of(keys@[jj]@, msg),
                        )
                } else {
                    self.signatures@[i] == before[i]
                } by {
                    if i == p as int {
                        assert(keys@.take(kk + 1)[kk] == keys@[kk]);
                        assert(has_key_for(keys@.take(kk + 1), signers[i]@));
                        assert(holds_signature(self.signatures@[i], signature_of(keys@[kk]@, msg)));
                    } else {
                        assert(signers[i]@ != signers[p as int]@);
                        assert(self.signatures@[i] == prev[i]);
                        if has_key_for(keys@.take(kk + 1), signers[i]@) {
                            let w = choose|w: int|
                                0 <= w < kk + 1 && public_part(
                                    #[trigger] keys@.take(kk + 1)[w]@,
                                ) == signers[i]@;
                            assert(w != kk);
                            assert(keys@.take(kk)[w] == keys@[w]);
                            assert(has_key_for(keys@.take(kk), signers[i]@));
                        } else {
                            if has_key_for(keys@.take(kk), signers[i]@) {
                                let w = choose|w: int|
                                    0 <= w < kk && public_part(
                                        #[trigger] keys@.take(kk)[w]@,
                                    ) == signers[i]@;
                                assert(keys@.take(kk + 1)[w] == keys@[w]);
                            }
                        }
                    }
                }
            }
            k = k + 1;
        }
        assert(keys@.take(keys@.len() as int) =~= keys@);
        Ok(())
    }
}

/// Signing a transaction that holds no signature yet completes it exactly
/// when every required signer has a key among those that signed, and then,
/// with every filled slot verifying, it passes the validity check: a
/// transaction that misses any required signer fails it.
pub proof fn lemma_complete_iff_every_signer(
    before: Seq<Option<[u8; 64]>>,
    after: Seq<Option<[u8; 64]>>,
    signers: Seq<[u8; 32]>,
    keys: Seq<Keypair>,
    msg: Seq<u8>,
)
    requires
        before.len() == signers.len(),
        none_signed(before),
        signed_slots(before, after, signers, keys, msg),
    ensures
        all_signed(after) <==> forall|i: int|
            0 <= i < signers.len() ==> has_key_for(keys, #[trigger] signers[i]@),
        slots_verify(after, signers, msg) ==> (all_verify(after, signers, msg) <==> forall|i: int|
            0 <= i < signers.len() ==> has_key_for(keys, #[trigger] signers[i]@)),
{
    if slots_verify(after, signers, msg) {
        if all_signed(after) {
            assert forall|i: int| 0 <= i < after.len() implies match #[trigger] after[i] {
                Some(s) => signature_verifies(signers[i]@, msg, s@),
                None => false,
            } by {
                assert(after[i] is Some);
            }
        }
        if all_verify(after, signers, msg) {
            assert forall|i: int| 0 <= i < after.len() implies (#[trigger] after[i]) is Some by {
                match after[i] {
                    Some(_) => {},
                    None => {},
                }
            }
        }
    }
    if all_signed(after) {
        assert forall|i: int| 0 <= i < signers.len() implies has_key_for(
            keys,
            #[trigger] signers[i]@,
        ) by {
            if !has_key_for(keys, signers[i]@) {
                assert(after[i] == before[i]);
                assert(after[i] is Some);
            }
        }
    }
    if forall|i: int| 0 <= i < signers.len() ==> has_key_for(keys, #[trigger] signers[i]@) {
        assert forall|i: int| 0 <= i < after.len() implies (#[trigger] after[i]) is Some by {
            assert(has_key_for(keys, signers[i]@));
        }
    }
}

/// The order in which keys sign does not matter: signing the same slots
/// over the same message with two lists that hold the same keys, where no
/// two different keys share an identity, fills the slots alike.
pub proof fn lemma_sign_order_irrelevant(
    before: Seq<Option<[u8; 64]>>,
    after1: Seq<Option<[u8; 64]>>,
    after2: Seq<Option<[u8; 64]>>,
    signers: Seq<[u8; 32]>,
    keys1: Seq<Keypair>,
    keys2: Seq<Keypair>,
    msg: Seq<u8>,
)
    requires
        before.len() == signers.len(),
        forall|j: int| 0 <= j < keys1.len() ==> keys2.contains(#[trigger] keys1[j]),
        forall|j: int| 0 <= j < keys2.len() ==> keys1.contains(#[trigger] keys2[j]),
        forall|j: int, l: int|
            0 <= j < keys1.len() && 0 <= l < keys1.len() && public_part(#[trigger] keys1[j]@)
                == public_part(#[trigger] keys1[l]@) ==> keys1[j]@ == keys1[l]@,
        signed_slots(before, after1, signers, keys1, msg),
        signed_slots(before, after2, signers, keys2, msg),
    ensures
        after1 == after2,
{
    assert forall|i: int| 0 <= i < after1.len() implies after1[i] == after2[i] by {
        let p = signers[i]@;
        if has_key_for(keys1, p) {
            let j1 = choose|j: int| 0 <= j < keys1.len() && public_part(#[trigger] keys1[j]@) == p;
            let l = choose|l: int| 0 <= l < keys2.len() && keys2[l] == keys1[j1];
            assert(public_part(keys2[l]@) == p);
            assert(has_key_for(keys2, p));
            let w1 = choose|w: int|
                0 <= w < keys1.len() && public_part(keys1[w]@) == p && holds_signature(
                    #[trigger] after1[i],
                    signature_of(keys1[w]@, msg),
                );
            let w2 = choose|w: int|
                0 <= w < keys2.len() && public_part(keys2[w]@) == p && holds_signature(
                    #[trigger] after2[i],
                    signature_of(keys2[w]@, msg),
                );
            let m = choose|m: int| 0 <= m < keys1.len() && keys1[m] == keys2[w2];
            assert(keys1[m]@ == keys1[w1]@);
            let x = after1[i]->Some_0;
            let y = after2[i]->Some_0;
            assert(x =~= y);
        } else {
            if has_key_for(keys2, p) {
                let j2 = choose|j: int| 0 <= j < keys2.len() && public_part(#[trigger] keys2[j]@) == p;
                let l = choose|l: int| 0 <= l < keys1.len() && keys1[l] == keys2[j2];
                assert(public_part(keys1[l]@) == p);
            }
        }
    }
    assert(after1 =~= after2);
}

/// Counting the entries of a prefix one instruction longer adds that
/// instruction's entries, and no prefix has more entries than the whole.
proof fn lemma_account_entries_prefix(ixs: Seq<Instruction>, i: int)
    requires
        0 <= i < ixs.len(),
    ensures
        account_entries(ixs.take(i + 1)) == account_entries(ixs.take(i)) + ixs[i].accounts@.len(),
        account_entries(ixs.take(i + 1)) <= account_entries(ixs),
    decreases ixs.len() - i,
{
    assert(ixs.take(i + 1).drop_last() =~= ixs.take(i));
    if i + 1 == ixs.len() {
        assert(ixs.take(i + 1) =~= ixs);
    } else {
        lemma_account_entries_prefix(ixs, i + 1);
    }
}

/// Whether the instructions fit one message: the test that `build_txn`
/// and `Txn::new_unsigned` ask of their callers.
pub fn message_fits(ixs: &Vec<Instruction>) -> (r: bool)
    ensures
        r == fits_message(ixs@),
{
    let mut count: usize = 1;
    let mut i: usize = 0;
    assert(ixs@.take(0) =~= Seq::<Instruction>::empty());
    while i < ixs.len()
        invariant
            i <= ixs@.len(),
            count == 1 + i + account_entries(ixs@.take(i as int)),
            count <= 255,
            forall|j: int| 0 <= j < i ==> (#[trigger] ixs@[j]).data@.len() <= 65535,
        decreases ixs@.len() - i,
    {
        proof {
            lemma_account_entries_prefix(ixs@, i as int);
        }
        if ixs[i].data.len() > 65535 {
            return false;
        }
        let n = ixs[i].accounts.len();
        if n >= 255 - count {
            return false;
        }
        count = count + 1 + n;
        i = i + 1;
    }
    assert(ixs@.take(i as int) =~= ixs@);
    true
}

/// Where the key `pk` stands among the signers, if it is one of them.
fn position_of(signers: &Vec<[u8; 32]>, pk: &[u8; 32]) -> (r: Option<usize>)
    ensures
        match r {
            Some(p) => p < signers@.len() && signers@[p as int]@ == pk@,
            None => forall|i: int| 0 <= i < signers@.len() ==> (#[trigger] signers@[i])@ != pk@,
        },
{
    let mut i: usize = 0;
    while i < signers.len()
        invariant
            i <= signers@.len(),
            forall|j: int| 0 <= j < i ==> (#[trigger] signers@[j])@ != pk@,
        decreases signers@.len() - i,
    {
        if same_key(&signers[i], pk) {
            return Some(i);
        }
        i = i + 1;
    }
    None
}

/// Byte-wise equality of two public keys.
fn same_key(a: &[u8; 32], b: &[u8; 32]) -> (r: bool)
    ensures
        r == (a@ == b@),
{
    let mut i: usize = 0;
    while i < 32
        invariant
            i <= 32,
            a@.len() == 32,
            b@.len() == 32,
            forall|j: int| 0 <= j < i ==> a@[j] == b@[j],
        decreases 32 - i,
    {
        if a[i] != b[i] {
            return false;
        }
        i = i + 1;
    }
    assert(a@ =~= b@);
    true
}

/// Compiles the instructions with the fee payer and the checkpoint the
/// caller fetched, then signs with each key in the order given. Fails with
/// `SigningFailed` when a key is not valid key material or belongs to no
/// required signer.
pub fn build_txn(
    instructions: &Vec<Instruction>,
    fee_payer: [u8; 32],
    blockhash: [u8; 32],
    keys: &Vec<Keypair>,
) -> (r: Result<Txn, PipelineError>)
    requires
        fits_message(instructions@),
    ensures
        r is Ok <==> keys_required(keys@, instructions@, fee_payer@),
        match r {
            Ok(t) => {
                &&& t.wf()
                &&& t.blockhash_view() == blockhash
                &&& t.message_view() == compiled_of(instructions@, fee_payer@, blockhash@).0
                &&& t.signers_view() == compiled_of(instructions@, fee_payer@, blockhash@).1
                &&& t.signers_view()[0]@ == fee_payer@
                &&& keys_fit(keys@, t.signers_view())
                &&& signed_slots(
                    Seq::new(t.signers_view().len(), |i: int| None),
                    t.signatures_view(),
                    t.signers_view(),
                    keys@,
                    t.message_view(),
                )
                &&& forall|i: int|
                    1 <= i < t.signers_view().len() ==> marked_signer(
                        instructions@,
                        #[trigger] t.signers_view()[i]@,
                    )
                &&& forall|k: Seq<u8>|
                    marked_signer(instructions@, k) ==> exists|i: int|
                        0 <= i < t.signers_view().len() && #[trigger] t.signers_view()[i]@ == k
            },
            Err(e) => e == PipelineError::SigningFailed,
        },
{
    let mut txn = Txn::new_unsigned(instructions, fee_payer, blockhash);
    let ghost before = txn.signatures_view();
    let ghost signers = txn.signers_view();
    assert(keys_fit(keys@, signers) <==> keys_required(keys@, instructions@, fee_payer@)) by {
        if keys_fit(keys@, signers) {
            assert forall|j: int| 0 <= j < keys@.len() implies valid_key_bytes(#[trigger] keys@[j]@)
                && (public_part(keys@[j]@) == fee_payer@ || marked_signer(
                instructions@,
                public_part(keys@[j]@),
            )) by {
                let i = choose|i: int| 0 <= i < signers.len() && signers[i]@ == public_part(keys@[j]@);
                if i != 0 {
                    assert(marked_signer(instructions@, signers[i]@));
                }
            }
        }
        if keys_required(keys@, instructions@, fee_payer@) {
            assert forall|j: int| 0 <= j < keys@.len() implies valid_key_bytes(#[trigger] keys@[j]@)
                && exists|i: int| 0 <= i < signers.len() && signers[i]@ == public_part(keys@[j]@) by {
                if public_part(keys@[j]@) == fee_payer@ {
                    assert(signers[0]@ == public_part(keys@[j]@));
                } else {
                    let k = public_part(keys@[j]@);
                    assert(marked_signer(instructions@, k));
                    let i = choose|i: int| 0 <= i < signers.len() && #[trigger] signers[i]@ == k;
                    assert(signers[i]@ == k);
                }
            }
        }
    }
    match txn.try_partial_sign(keys) {
        Ok(()) => {
            assert(before =~= Seq::new(txn.signers_view().len(), |i: int| None::<[u8; 64]>));
            Ok(txn)
        },
        Err(e) => Err(e),
    }
}

/// Laying the wire signatures out one after another gives the slots' bytes.
proof fn lemma_flat_wire(sigs: Seq<[u8; 64]>, slots: Seq<Option<[u8; 64]>>)
    requires
        sigs.len() == slots.len(),
        forall|i: int| 0 <= i < sigs.len() ==> #[trigger] sigs[i]@ == slot_bytes(slots[i]),
    ensures
        flat_signatures(sigs) == flat_slots(slots),
    decreases sigs.len(),
{
    if sigs.len() > 0 {
        let n = sigs.len() - 1;
        assert(sigs[n as int]@ == slot_bytes(slots[n as int]));
        lemma_flat_wire(sigs.drop_last(), slots.drop_last());
    }
}

/// The payload of a dry-run request: the transaction's wire bytes (bincode)
/// as padded standard base-64 text. Fails with `SerializationError` when
/// bincode reports an error.
pub fn simulation_payload(txn: &Txn) -> (r: Result<String, PipelineError>)
    ensures
        match r {
            Ok(t) => t@ == base64_of(wire_bytes(txn.signatures_view(), txn.message_view())),
            Err(e) => e == PipelineError::SerializationError,
        },
        r is Ok <==> txn.signatures_view().len() <= 65535,
{
    let sigs = txn.wire_signatures();
    proof {
        assert forall|i: int| 0 <= i < sigs@.len() implies #[trigger] sigs@[i]@ == slot_bytes(
            txn.signatures_view()[i],
        ) by {
            match txn.signatures_view()[i] {
                Some(s) => assert(sigs@[i] == s),
                None => assert(sigs@[i]@ == zero_signature()),
            }
        }
        lemma_flat_wire(sigs@, txn.signatures_view());
    }
    match serialize_transaction(txn, &sigs) {
        Some(bytes) => Ok(base64_encode(&bytes)),
        None => Err(PipelineError::SerializationError),
    }
}

} // verus!
