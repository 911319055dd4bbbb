//! Outputs and transactions: the spendable value units of the ledger, the
//! derivation of their identifying hashes, and their summed values.

use vstd::prelude::*;
use crate::bytes::{u64_le, push_u64_le};
use crate::hashing::{Hashable, sha256, sha256_of};
use vstd::string::StrSliceExecFns;

verus! {

/// A spendable unit of value, assigned to a bare string address.
#[derive(Clone, Debug)]
pub struct Output {
    pub to_addr: String,
    pub value: u64,
}

/// A transfer: `inputs` spend previously created outputs (referenced by their
/// hashes), `outputs` create new spendable units. A transaction with no
/// inputs is a coinbase transaction and may mint value.
#[derive(Clone, Debug)]
pub struct Transaction {
    pub inputs: Vec<Output>,
    pub outputs: Vec<Output>,
}

/// Canonical serialization of an output: the UTF-8 bytes of its address,
/// then its value in fixed-width little-endian form.
pub open spec fn output_bytes(o: Output) -> Seq<u8> {
    vstd::utf8::encode_utf8(o.to_addr@) + u64_le(o.value)
}

/// The identifying hash of an output: the digest of its serialization.
pub open spec fn output_hash(o: Output) -> Seq<u8> {
    sha256_of(output_bytes(o))
}

/// Serialization of a list of outputs, in order.
pub open spec fn outputs_bytes(os: Seq<Output>) -> Seq<u8>
    decreases os.len(),
{
    if os.len() == 0 {
        Seq::empty()
    } else {
        outputs_bytes(os.drop_last()) + output_bytes(os.last())
    }
}

/// Canonical serialization of a transaction: its inputs, then its outputs.
pub open spec fn txn_bytes(t: Transaction) -> Seq<u8> {
    outputs_bytes(t.inputs@) + outputs_bytes(t.outputs@)
}

/// The sum of the `value` fields of a list of outputs.
pub open spec fn sum_values(os: Seq<Output>) -> int
    decreases os.len(),
{
    if os.len() == 0 {
        0
    } else {
        sum_values(os.drop_last()) + os.last().value
    }
}

/// The set of identifying hashes of a list of outputs.
pub open spec fn hashes_of(os: Seq<Output>) -> Set<Seq<u8>> {
    Set::new(|h: Seq<u8>| exists|i: int| 0 <= i < os.len() && h == output_hash(#[trigger] os[i]))
}

/// The set of hashes a transaction spends.
pub open spec fn input_hash_set(t: Transaction) -> Set<Seq<u8>> {
    hashes_of(t.inputs@)
}

/// The set of hashes a transaction creates.
pub open spec fn output_hash_set(t: Transaction) -> Set<Seq<u8>> {
    hashes_of(t.outputs@)
}

/// A value sum never exceeds the number of summands times the largest value.
pub proof fn lemma_sum_values_bound(os: Seq<Output>)
    ensures
        0 <= sum_values(os) <= os.len() * u64::MAX,
    decreases os.len(),
{
    if os.len() > 0 {
        lemma_sum_values_bound(os.drop_last());
        assert((os.len() - 1) * u64::MAX + u64::MAX == os.len() * u64::MAX) by (nonlinear_arith);
    }
}

impl Hashable for Output {
    open spec fn bytes_spec(&self) -> Seq<u8> {
        output_bytes(*self)
    }

    fn bytes(&self) -> (r: Vec<u8>) {
        let mut out = self.to_addr.as_str().as_bytes_vec();
        push_u64_le(&mut out, self.value);
        out
    }

    fn hash(&self) -> (r: Vec<u8>) {
        sha256(&self.bytes())
    }
}

impl Hashable for Transaction {
    open spec fn bytes_spec(&self) -> Seq<u8> {
        txn_bytes(*self)
    }

    fn bytes(&self) -> (r: Vec<u8>) {
        let mut out = outputs_bytes_vec(&self.inputs);
        let rhs = outputs_bytes_vec(&self.outputs);
        crate::bytes::push_bytes(&mut out, &rhs);
        out
    }

    fn hash(&self) -> (r: Vec<u8>) {
        sha256(&self.bytes())
    }
}

/// Serializes a list of outputs in order.
fn outputs_bytes_vec(os: &Vec<Output>) -> (r: Vec<u8>)
    ensures
        r@ == outputs_bytes(os@),
{
    let mut out: Vec<u8> = Vec::new();
    let mut i: usize = 0;
    while i < os.len()
        invariant
            i <= os@.len(),
            out@ == outputs_bytes(os@.take(i as int)),
        decreases os@.len() - i,
    {
        let piece = os[i].bytes();
        crate::bytes::push_bytes(&mut out, &piece);
        i = i + 1;
        assert(os@.take(i as int).drop_last() =~= os@.take(i as int - 1));
        assert(os@.take(i as int).last() == os@[i as int - 1]);
    }
    assert(os@.take(os@.len() as int) =~= os@);
    out
}

impl Transaction {
    /// True iff the transaction has no inputs, i.e. it may mint value.
    pub fn is_coinbase(&self) -> (r: bool)
        ensures
            r == (self.inputs@.len() == 0),
    {
        self.inputs.len() == 0
    }

    /// The summed value of the inputs. The sum is exact: it cannot overflow
    /// its width, since a vector holds fewer than 2^64 outputs of value
    /// below 2^64 each.
    pub fn input_value(&self) -> (r: u128)
        ensures
            r == sum_values(self.inputs@),
    {
        sum_values_exec(&self.inputs)
    }

    /// The summed value of the outputs; exact, as for `input_value`.
    pub fn output_value(&self) -> (r: u128)
        ensures
            r == sum_values(self.outputs@),
    {
        sum_values_exec(&self.outputs)
    }

    /// The hashes of the outputs this transaction spends, one per input, in
    /// input order.
    pub fn input_hashes(&self) -> (r: Vec<Vec<u8>>)
        ensures
            r@.len() == self.inputs@.len(),
            forall|i: int| 0 <= i < r@.len() ==> r@[i]@ == output_hash(self.inputs@[i]),
    {
        hashes_vec(&self.inputs)
    }

    /// The hashes of the outputs this transaction creates, one per output, in
    /// output order.
    pub fn output_hashes(&self) -> (r: Vec<Vec<u8>>)
        ensures
            r@.len() == self.outputs@.len(),
            forall|i: int| 0 <= i < r@.len() ==> r@[i]@ == output_hash(self.outputs@[i]),
    {
        hashes_vec(&self.outputs)
    }
}

/// Sums the values of a list of outputs, exactly.
fn sum_values_exec(os: &Vec<Output>) -> (r: u128)
    ensures
        r == sum_values(os@),
{
    let mut acc: u128 = 0;
    let mut i: usize = 0;
    while i < os.len()
        invariant
            i <= os@.len(),
            acc == sum_values(os@.take(i as int)),
        decreases os@.len() - i,
    {
        proof {
            lemma_sum_values_bound(os@.take(i as int));
            assert(os@.take(i as int).len() * u64::MAX <= (os@.len() - 1) * u64::MAX)
                by (nonlinear_arith)
                requires os@.take(i as int).len() == i && i < os@.len();
            assert((os@.len() - 1) * u64::MAX + u64::MAX < u128::MAX) by (nonlinear_arith)
                requires os@.len() <= u64::MAX;
        }
        acc = acc + (os[i].value as u128);
        i = i + 1;
        assert(os@.take(i as int).drop_last() =~= os@.take(i as int - 1));
        assert(os@.take(i as int).last() == os@[i as int - 1]);
    }
    assert(os@.take(os@.len() as int) =~= os@);
    acc
}

/// The identifying hash of each output in the list, in order.
fn hashes_vec(os: &Vec<Output>) -> (r: Vec<Vec<u8>>)
    ensures
        r@.len() == os@.len(),
        forall|i: int| 0 <= i < r@.len() ==> r@[i]@ == output_hash(os@[i]),
{
    let mut out: Vec<Vec<u8>> = Vec::new();
    let mut i: usize = 0;
    while i < os.len()
        invariant
            i <= os@.len(),
            out@.len() == i,
            forall|j: int| 0 <= j < i ==> out@[j]@ == output_hash(os@[j]),
        decreases os@.len() - i,
    {
        out.push(os[i].hash());
        i = i + 1;
    }
    out
}

} // verus!
