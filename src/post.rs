//! Posting a message: its payloads, each in a signed transaction that spends
//! the change of the one before.
use crate::protocol::{encode, encode_spec, views, NewBork, ProtocolError};
use crate::request::{requested, NewBorkData};
use crate::tx::{copy_bytes, payment_outcome, raw_inputs, TxError};
use crate::wallet::{secret_part, ChildWallet};
use vstd::prelude::*;

verus! {

/// Why a message could not be posted.
#[derive(Debug, Clone, Copy, PartialEq, Eq, Structural)]
pub enum PostError {
    Message(ProtocolError),
    Payment(TxError),
}

/// What the `k`-th transaction of a post spends: the given inputs, then the
/// transaction before.
pub open spec fn spend_of(inputs: Seq<Seq<u8>>, txs: Seq<Vec<u8>>, k: int) -> Seq<Seq<u8>> {
    if k == 0 {
        inputs
    } else {
        seq![txs[k - 1]@]
    }
}

/// What the `k`-th transaction of a post pays besides change: the given
/// outputs in the first, nothing after.
pub open spec fn pay_of(outputs: Seq<(String, u64)>, k: int) -> Seq<(String, u64)> {
    if k == 0 {
        outputs
    } else {
        Seq::empty()
    }
}

/// The message that `data` asks for encodes with `nonce`, and after some of its
/// payments succeed the next one fails with `e`.
pub open spec fn payment_failed(
    data: NewBorkData,
    secret: Seq<u8>,
    nonce: u8,
    inputs: Seq<Seq<u8>>,
    outputs: Seq<(String, u64)>,
    fee: u64,
    e: TxError,
) -> bool {
    exists|b: NewBork, done: Seq<Vec<u8>>|
        requested(data, b) && encode_spec(b, nonce) is Ok && #[trigger] fails_after(
            secret,
            inputs,
            outputs,
            fee,
            encode_spec(b, nonce)->Ok_0,
            done,
            e,
        )
}

proof fn lemma_failed(
    data: NewBorkData,
    secret: Seq<u8>,
    nonce: u8,
    inputs: Seq<Seq<u8>>,
    outputs: Seq<(String, u64)>,
    fee: u64,
    b: NewBork,
    done: Seq<Vec<u8>>,
    e: TxError,
)
    requires
        requested(data, b),
        encode_spec(b, nonce) is Ok,
        fails_after(secret, inputs, outputs, fee, encode_spec(b, nonce)->Ok_0, done, e),
    ensures
        payment_failed(data, secret, nonce, inputs, outputs, fee, e),
{
}

/// The payments of payloads `ps` succeed as `done`, then the next one fails with `e`.
pub open spec fn fails_after(
    secret: Seq<u8>,
    inputs: Seq<Seq<u8>>,
    outputs: Seq<(String, u64)>,
    fee: u64,
    ps: Seq<Seq<u8>>,
    done: Seq<Vec<u8>>,
    e: TxError,
) -> bool {
    let k = done.len() as int;
    &&& k < ps.len()
    &&& forall|j: int|
        0 <= j < k ==> payment_outcome(
            secret,
            spend_of(inputs, done, j),
            pay_of(outputs, j),
            fee,
            Some(ps[j]),
            Ok::<Vec<u8>, TxError>(#[trigger] done[j]),
        )
    &&& payment_outcome(
        secret,
        spend_of(inputs, done, k),
        pay_of(outputs, k),
        fee,
        Some(ps[k]),
        Err::<Vec<u8>, TxError>(e),
    )
}

impl ChildWallet {
    /// Posts the message that `data` asks for with the next nonce: one signed
    /// transaction per payload, the first spending `inputs` and paying
    /// `outputs`, each later one spending the transaction before.
    #[verifier::rlimit(40)]
    pub fn new_bork(
        &mut self,
        data: NewBorkData,
        inputs: &[Vec<u8>],
        outputs: &[(String, u64)],
        fee: u64,
    ) -> (r: Result<Vec<Vec<u8>>, PostError>)
        ensures
            final(self).seed_view() == old(self).seed_view(),
            r matches Ok(txs) ==> exists|b: NewBork|
                {
                    let nonce = old(self).nonce_view().wrapping_add(1);
                    let ps = encode_spec(b, nonce)->Ok_0;
                    &&& #[trigger] requested(data, b)
                    &&& final(self).nonce_view() == nonce
                    &&& encode_spec(b, nonce) is Ok
                    &&& txs@.len() == ps.len()
                    &&& forall|k: int|
                        0 <= k < txs@.len() ==> payment_outcome(
                            secret_part(old(self).seed_view()),
                            spend_of(raw_inputs(inputs@), txs@, k),
                            pay_of(outputs@, k),
                            fee,
                            Some(ps[k]),
                            Ok::<Vec<u8>, TxError>(#[trigger] txs@[k]),
                        )
                },
            r matches Err(PostError::Message(e)) ==> (forall|b: NewBork| !requested(data, b))
                || exists|b: NewBork|
                #[trigger] requested(data, b) && encode_spec(b, old(self).nonce_view().wrapping_add(1))
                    == Err::<Seq<Seq<u8>>, ProtocolError>(e),
            r matches Err(PostError::Payment(e)) ==> payment_failed(
                data,
                secret_part(old(self).seed_view()),
                old(self).nonce_view().wrapping_add(1),
                raw_inputs(inputs@),
                outputs@,
                fee,
                e,
            ),
    {
        let ghost data_v = data;
        let bork = match NewBork::try_from(data) {
            Ok(b) => b,
            Err(e) => {
                return Err(PostError::Message(e));
            },
        };
        let ghost bv = bork;
        let nonce = self.nonce();
        let payloads = match encode(bork, nonce) {
            Ok(p) => p,
            Err(e) => {
                proof {
                    assert(requested(data_v, bv));
                }
                return Err(PostError::Message(e));
            },
        };
        let ghost ps = views(payloads@);
        let ghost secret = secret_part(self.seed_view());
        let mut txs: Vec<Vec<u8>> = Vec::new();
        let mut k: usize = 0;
        while k < payloads.len()
            invariant
                ps == views(payloads@),
                secret == secret_part(self.seed_view()),
                self.seed_view() == old(self).seed_view(),
                self.nonce_view() == old(self).nonce_view().wrapping_add(1),
                nonce == self.nonce_view(),
                encode_spec(bv, nonce) == Ok::<Seq<Seq<u8>>, ProtocolError>(ps),
                requested(data_v, bv),
                data_v == data,
                k <= payloads@.len(),
                txs@.len() == k,
                forall|j: int|
                    0 <= j < k ==> payment_outcome(
                        secret,
                        spend_of(raw_inputs(inputs@), txs@, j),
                        pay_of(outputs@, j),
                        fee,
                        Some(ps[j]),
                        Ok::<Vec<u8>, TxError>(#[trigger] txs@[j]),
                    ),
            decreases payloads@.len() - k,
        {
            let ghost before = txs@;
            let r = if k == 0 {
                self.construct_signed(inputs, outputs, fee, Some(payloads[k].as_slice()))
            } else {
                let mut spend: Vec<Vec<u8>> = Vec::new();
                spend.push(copy_bytes(&txs[k - 1]));
                let none: Vec<(String, u64)> = Vec::new();
                let r = self.construct_signed(spend.as_slice(), none.as_slice(), fee, Some(payloads[k].as_slice()));
                proof {
                    assert(raw_inputs(spend@) =~= spend_of(raw_inputs(inputs@), txs@, k as int));
                    assert(none@ =~= pay_of(outputs@, k as int));
                }
                r
            };
            let tx = match r {
                Ok(t) => t,
                Err(e) => {
                    proof {
                        assert(requested(data_v, bv));
                        assert(fails_after(secret, raw_inputs(inputs@), outputs@, fee, ps, before, e));
                        assert(ps == encode_spec(bv, nonce)->Ok_0);
                        lemma_failed(data_v, secret, nonce, raw_inputs(inputs@), outputs@, fee, bv, before, e);
                    }
                    return Err(PostError::Payment(e));
                },
            };
            txs.push(tx);
            proof {
                assert forall|j: int| 0 <= j < k + 1 implies spend_of(raw_inputs(inputs@), txs@, j)
                    == spend_of(raw_inputs(inputs@), before, j) || j == k by {}
                assert(forall|j: int| 0 <= j < k ==> txs@[j] == before[j]);
                assert forall|j: int| 0 <= j < k implies spend_of(raw_inputs(inputs@), txs@, j)
                    == spend_of(raw_inputs(inputs@), before, j) by {
                    if j > 0 {
                        assert(txs@[j - 1] == before[j - 1]);
                    }
                }
            }
            k = k + 1;
        }
        proof {
            assert(requested(data_v, bv));
        }
        Ok(txs)
    }
}

} // verus!
