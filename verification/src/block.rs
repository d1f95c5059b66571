//! Block-level accounting: proof-of-work block and ommer rewards, withdrawals, and the balance
//! increments they produce after a block's transactions.

use vstd::prelude::*;
use crate::config::SpecId;
use crate::primitives::{Address, Word, word_modulus};
use crate::vecmap::VecMap;

verus! {

/// One ether in wei.
pub const ONE_ETHER: u128 = 1_000_000_000_000_000_000u128;

/// One gwei in wei.
pub const GWEI_TO_WEI: u128 = 1_000_000_000u128;

/// Ommer header data needed for post-block balance increments.
#[derive(Clone, Copy, Debug, PartialEq, Eq, Hash, Structural)]
pub struct BlockOmmer {
    /// Ommer beneficiary.
    pub beneficiary: Address,
    /// Ommer block number.
    pub number: u64,
}

/// A validator withdrawal (EIP-4895): the recipient and the amount in gwei.
#[derive(Clone, Copy, Debug, PartialEq, Eq, Hash, Structural)]
pub struct Withdrawal {
    /// Monotonically increasing withdrawal index.
    pub index: u64,
    /// Index of the withdrawing validator.
    pub validator_index: u64,
    /// Recipient of the withdrawn ether.
    pub address: Address,
    /// Amount in gwei.
    pub amount: u64,
}

impl Withdrawal {
    /// The amount in wei.
    pub fn amount_wei(&self) -> (r: Word)
        ensures
            r.val() == self.amount * GWEI_TO_WEI,
    {
        let wei: u128 = self.amount as u128 * GWEI_TO_WEI;
        Word::from_u128(wei)
    }
}

/// The base block reward of a proof-of-work fork; none from the Merge on.
pub open spec fn spec_base_block_reward(spec_id: SpecId) -> Option<u128> {
    if spec_id.spec_enables(SpecId::MERGE) {
        None
    } else if spec_id.spec_enables(SpecId::PETERSBURG) {
        Some((2 * ONE_ETHER) as u128)
    } else if spec_id.spec_enables(SpecId::BYZANTIUM) {
        Some((3 * ONE_ETHER) as u128)
    } else {
        Some((5 * ONE_ETHER) as u128)
    }
}

/// The base block reward: 5 ether before Byzantium, 3 ether before Petersburg (Constantinople
/// included), 2 ether until the Merge, and none from the Merge on.
pub fn base_block_reward(spec_id: SpecId) -> (r: Option<u128>)
    ensures
        r == spec_base_block_reward(spec_id),
{
    if spec_id.enables(SpecId::MERGE) {
        None
    } else if spec_id.enables(SpecId::PETERSBURG) {
        Some(ONE_ETHER * 2)
    } else if spec_id.enables(SpecId::BYZANTIUM) {
        Some(ONE_ETHER * 3)
    } else {
        Some(ONE_ETHER * 5)
    }
}

/// The miner's reward: the base reward plus a thirty-second of it per included ommer.
pub open spec fn spec_block_reward(base_block_reward: u128, ommers: nat) -> int {
    base_block_reward + (base_block_reward / 32) * ommers
}

/// The miner's reward for a block with `ommers` ommers.
pub fn block_reward(base_block_reward: u128, ommers: usize) -> (r: u128)
    requires
        spec_block_reward(base_block_reward, ommers as nat) <= u128::MAX,
    ensures
        r == spec_block_reward(base_block_reward, ommers as nat),
{
    let share: u128 = base_block_reward >> 5u32;
    assert(share == base_block_reward / 32) by (bit_vector)
        requires
            share == base_block_reward >> 5u32,
    ;
    let ommers_wide: u128 = ommers as u128;
    assert(share * ommers_wide <= u128::MAX) by (nonlinear_arith)
        requires
            base_block_reward + share * ommers_wide <= u128::MAX,
    ;
    base_block_reward + share * ommers_wide
}

/// An ommer's reward: `(8 + ommer_number - block_number) / 8` of the base reward.
pub open spec fn spec_ommer_reward(base_block_reward: u128, block_number: u64, ommer_block_number: u64) -> int {
    ((8 + ommer_block_number - block_number) * base_block_reward) / 8
}

/// The reward of an ommer at `ommer_block_number` included in block `block_number`.
pub fn ommer_reward(base_block_reward: u128, block_number: u64, ommer_block_number: u64) -> (r: u128)
    requires
        ommer_block_number + 8 <= u64::MAX,
        block_number <= ommer_block_number + 8,
        (8 + ommer_block_number - block_number) * base_block_reward <= u128::MAX,
    ensures
        r == spec_ommer_reward(base_block_reward, block_number, ommer_block_number),
{
    let distance: u64 = 8 + ommer_block_number - block_number;
    let d: u128 = distance as u128;
    let product: u128 = d * base_block_reward;
    let r: u128 = product >> 3u32;
    assert(r == product / 8) by (bit_vector)
        requires
            r == product >> 3u32,
    ;
    r
}

/// `m` with `x` added, modulo two to the 256th power, to the amount of `a`.
pub open spec fn add_increment(m: Map<Address, nat>, a: Address, x: nat) -> Map<Address, nat> {
    m.insert(a, ((if m.contains_key(a) { m[a] } else { 0 }) + x) % word_modulus() as nat)
}

/// `m` after each ommer's reward is added for its beneficiary, in order.
pub open spec fn ommer_increments(
    m: Map<Address, nat>,
    ommers: Seq<BlockOmmer>,
    base_block_reward: u128,
    block_number: u64,
) -> Map<Address, nat>
    decreases ommers.len(),
{
    if ommers.len() == 0 {
        m
    } else {
        let o = ommers.last();
        add_increment(
            ommer_increments(m, ommers.drop_last(), base_block_reward, block_number),
            o.beneficiary,
            spec_ommer_reward(base_block_reward, block_number, o.number) as nat,
        )
    }
}

/// `m` after each non-zero withdrawal is added for its recipient, in order.
pub open spec fn withdrawal_increments(m: Map<Address, nat>, withdrawals: Seq<Withdrawal>) -> Map<Address, nat>
    decreases withdrawals.len(),
{
    if withdrawals.len() == 0 {
        m
    } else {
        let w = withdrawals.last();
        let rest = withdrawal_increments(m, withdrawals.drop_last());
        if w.amount == 0 {
            rest
        } else {
            add_increment(rest, w.address, (w.amount * GWEI_TO_WEI) as nat)
        }
    }
}

/// The balance increments after a block: ommer and block rewards before the Merge, and
/// withdrawals from Shanghai on.
pub open spec fn spec_post_block_balance_increments(
    spec_id: SpecId,
    block_number: u64,
    beneficiary: Address,
    ommers: Seq<BlockOmmer>,
    withdrawals: Option<Seq<Withdrawal>>,
) -> Map<Address, nat> {
    let rewards = match spec_base_block_reward(spec_id) {
        Some(base) => add_increment(
            ommer_increments(Map::empty(), ommers, base, block_number),
            beneficiary,
            spec_block_reward(base, ommers.len()) as nat,
        ),
        None => Map::empty(),
    };
    match withdrawals {
        Some(ws) => if spec_id.spec_enables(SpecId::SHANGHAI) {
            withdrawal_increments(rewards, ws)
        } else {
            rewards
        },
        None => rewards,
    }
}

/// The amounts of a map of words.
pub open spec fn amounts(m: Map<Address, Word>) -> Map<Address, nat> {
    Map::new(|a: Address| m.contains_key(a), |a: Address| m[a].val())
}

/// Adds `x` to the amount of `a`, wrapping modulo two to the 256th power.
fn add_to(m: &mut VecMap<Address, Word>, a: &Address, x: &Word)
    ensures
        amounts(final(m)@) == add_increment(amounts(old(m)@), *a, x.val()),
{
    let current = match m.get(a) {
        Some(v) => *v,
        None => Word::zero(),
    };
    let sum = current.wrapping_add(x);
    m.insert(*a, sum);
    assert(amounts(m@) =~= add_increment(amounts(old(m)@), *a, x.val()));
}

/// The block number as a `u64`, saturating at `u64::MAX`.
pub fn saturating_to_u64(w: &Word) -> (r: u64)
    ensures
        r == if w.val() <= u64::MAX { w.val() } else { u64::MAX as nat },
{
    if w.l1 == 0 && w.l2 == 0 && w.l3 == 0 {
        w.l0
    } else {
        proof {
            crate::primitives::lemma_word_val_ge_limbs(*w);
        }
        u64::MAX
    }
}

/// The balance increments for rewards and withdrawals after a block: each ommer's beneficiary
/// gets its ommer reward and the block's beneficiary the block reward (before the Merge), and
/// each recipient of a non-zero withdrawal gets its amount (from Shanghai on). Amounts add up
/// modulo two to the 256th power.
pub fn post_block_balance_increments(
    spec_id: SpecId,
    block_number: &Word,
    beneficiary: &Address,
    ommers: &Vec<BlockOmmer>,
    withdrawals: Option<&Vec<Withdrawal>>,
) -> (r: VecMap<Address, Word>)
    requires
        spec_base_block_reward(spec_id) is Some ==> forall|i: int|
            0 <= i < ommers@.len() ==> #[trigger] ommers@[i].number + 8 <= u64::MAX && (if block_number.val()
                <= u64::MAX {
                block_number.val()
            } else {
                u64::MAX as nat
            }) <= ommers@[i].number + 8,
    ensures
        amounts(r@) == spec_post_block_balance_increments(
            spec_id,
            (if block_number.val() <= u64::MAX { block_number.val() } else { u64::MAX as nat }) as u64,
            *beneficiary,
            ommers@,
            match withdrawals {
                Some(ws) => Some(ws@),
                None => None,
            },
        ),
{
    let mut increments: VecMap<Address, Word> = VecMap::new();
    let number = saturating_to_u64(block_number);
    let ghost empty = amounts(increments@);
    proof {
        assert(empty =~= Map::<Address, nat>::empty());
    }
    match base_block_reward(spec_id) {
        Some(base) => {
            let mut i: usize = 0;
            while i < ommers.len()
                invariant
                    i <= ommers@.len(),
                    spec_base_block_reward(spec_id) == Some(base),
                    forall|j: int|
                        0 <= j < ommers@.len() ==> #[trigger] ommers@[j].number + 8 <= u64::MAX && number
                            <= ommers@[j].number + 8,
                    amounts(increments@) == ommer_increments(Map::empty(), ommers@.take(i as int), base, number),
                decreases ommers@.len() - i,
            {
                let ommer = ommers[i];
                assert(base <= 5 * ONE_ETHER);
                assert((8 + ommer.number - number) * base <= u128::MAX) by (nonlinear_arith)
                    requires
                        8 + ommer.number - number <= u64::MAX + 8,
                        8 + ommer.number - number >= 0,
                        base <= 5 * ONE_ETHER,
                ;
                let reward = ommer_reward(base, number, ommer.number);
                let amount = Word::from_u128(reward);
                add_to(&mut increments, &ommer.beneficiary, &amount);
                proof {
                    assert(ommers@.take(i + 1).drop_last() =~= ommers@.take(i as int));
                    assert(ommers@.take(i + 1).last() == ommer);
                }
                i += 1;
            }
            proof {
                assert(ommers@.take(ommers@.len() as int) =~= ommers@);
            }
            assert(spec_block_reward(base, ommers@.len()) <= u128::MAX) by (nonlinear_arith)
                requires
                    base <= 5 * ONE_ETHER,
                    ommers@.len() <= usize::MAX,
                    spec_block_reward(base, ommers@.len()) == base + (base / 32) * ommers@.len(),
            ;
            let reward = block_reward(base, ommers.len());
            let amount = Word::from_u128(reward);
            add_to(&mut increments, beneficiary, &amount);
        },
        None => {},
    }
    let ghost rewards = amounts(increments@);
    match withdrawals {
        Some(ws) => {
            if spec_id.enables(SpecId::SHANGHAI) {
                let mut k: usize = 0;
                while k < ws.len()
                    invariant
                        k <= ws@.len(),
                        amounts(increments@) == withdrawal_increments(rewards, ws@.take(k as int)),
                    decreases ws@.len() - k,
                {
                    let w = ws[k];
                    if w.amount != 0 {
                        let amount = w.amount_wei();
                        add_to(&mut increments, &w.address, &amount);
                    }
                    proof {
                        assert(ws@.take(k + 1).drop_last() =~= ws@.take(k as int));
                        assert(ws@.take(k + 1).last() == w);
                    }
                    k += 1;
                }
                proof {
                    assert(ws@.take(ws@.len() as int) =~= ws@);
                }
            }
        },
        None => {},
    }
    increments
}

/// The base block reward by fork: 5 ether through Spurious Dragon, 3 ether for Byzantium and
/// Constantinople, 2 ether from Petersburg through Gray Glacier, and none from the Merge on.
pub proof fn law_base_block_reward_by_fork(spec_id: SpecId)
    ensures
        spec_base_block_reward(spec_id) == match spec_id {
            SpecId::FRONTIER | SpecId::FRONTIER_THAWING | SpecId::HOMESTEAD | SpecId::DAO_FORK
            | SpecId::TANGERINE | SpecId::SPURIOUS_DRAGON => Some(5_000_000_000_000_000_000u128),
            SpecId::BYZANTIUM | SpecId::CONSTANTINOPLE => Some(3_000_000_000_000_000_000u128),
            SpecId::PETERSBURG | SpecId::ISTANBUL | SpecId::MUIR_GLACIER | SpecId::BERLIN | SpecId::LONDON
            | SpecId::ARROW_GLACIER | SpecId::GRAY_GLACIER => Some(2_000_000_000_000_000_000u128),
            _ => None::<u128>,
        },
        spec_base_block_reward(spec_id) is None <==> spec_id.spec_enables(SpecId::MERGE),
        !spec_id.spec_enables(SpecId::MERGE) && spec_id.spec_enables(SpecId::PETERSBURG) ==> spec_base_block_reward(
            spec_id,
        ) == Some((2 * ONE_ETHER) as u128),
{
}

/// The amount recorded for `a`, or zero.
pub open spec fn amount_of(m: Map<Address, nat>, a: Address) -> nat {
    if m.contains_key(a) { m[a] } else { 0 }
}

/// The wei withdrawn to `a` by `withdrawals`, in total (a gwei is 10^9 wei).
pub open spec fn withdrawn_to(withdrawals: Seq<Withdrawal>, a: Address) -> nat
    decreases withdrawals.len(),
{
    if withdrawals.len() == 0 {
        0
    } else {
        withdrawn_to(withdrawals.drop_last(), a) + if withdrawals.last().address == a {
            (withdrawals.last().amount * 1_000_000_000) as nat
        } else {
            0nat
        }
    }
}

/// Whether some non-zero withdrawal goes to `a`.
pub open spec fn withdraws_to(withdrawals: Seq<Withdrawal>, a: Address) -> bool {
    exists|i: int| 0 <= i < withdrawals.len() && (#[trigger] withdrawals[i]).address == a && withdrawals[i].amount != 0
}

/// Withdrawals add up: after `withdrawals`, each address's amount is its amount before plus all
/// the wei withdrawn to it, modulo two to the 256th power, and an address has an amount exactly
/// when it had one before or some non-zero withdrawal goes to it.
pub proof fn law_withdrawals_add_up(m: Map<Address, nat>, withdrawals: Seq<Withdrawal>, a: Address)
    requires
        forall|x: Address| #[trigger] m.contains_key(x) ==> m[x] < word_modulus(),
    ensures
        amount_of(withdrawal_increments(m, withdrawals), a) == (amount_of(m, a) + withdrawn_to(withdrawals, a)) as int
            % word_modulus(),
        withdrawal_increments(m, withdrawals).contains_key(a) <==> m.contains_key(a) || withdraws_to(withdrawals, a),
    decreases withdrawals.len(),
{
    let modulus = word_modulus();
    if withdrawals.len() == 0 {
        vstd::arithmetic::div_mod::lemma_small_mod(amount_of(m, a), modulus as nat);
    } else {
        let rest = withdrawals.drop_last();
        let w = withdrawals.last();
        law_withdrawals_add_up(m, rest, a);
        let before = amount_of(withdrawal_increments(m, rest), a);
        let wei: nat = if w.address == a { (w.amount * GWEI_TO_WEI) as nat } else { 0 };
        assert(withdrawn_to(withdrawals, a) == withdrawn_to(rest, a) + wei);
        if w.amount != 0 && w.address == a {
            vstd::arithmetic::div_mod::lemma_add_mod_noop(
                (amount_of(m, a) + withdrawn_to(rest, a)) as int,
                wei as int,
                modulus,
            );
            vstd::arithmetic::div_mod::lemma_mod_twice(wei as int, modulus);
            vstd::arithmetic::div_mod::lemma_add_mod_noop(before as int, wei as int, modulus);
            vstd::arithmetic::div_mod::lemma_mod_twice((amount_of(m, a) + withdrawn_to(rest, a)) as int, modulus);
        }
        if w.amount == 0 && w.address == a {
            assert(wei == 0);
        }
        assert(withdraws_to(withdrawals, a) <==> withdraws_to(rest, a) || (w.address == a && w.amount != 0)) by {
            if withdraws_to(withdrawals, a) {
                let i = choose|i: int| 0 <= i < withdrawals.len() && (#[trigger] withdrawals[i]).address == a
                    && withdrawals[i].amount != 0;
                if i < rest.len() {
                    assert(rest[i] == withdrawals[i]);
                }
            }
            if withdraws_to(rest, a) {
                let i = choose|i: int| 0 <= i < rest.len() && (#[trigger] rest[i]).address == a && rest[i].amount != 0;
                assert(withdrawals[i] == rest[i]);
            }
            if w.address == a && w.amount != 0 {
                assert(withdrawals[withdrawals.len() - 1] == w);
            }
        }
    }
}

/// From Shanghai on there are no block rewards, and each address's increment is exactly the wei
/// withdrawn to it in the block, modulo two to the 256th power.
pub proof fn law_shanghai_increments_are_withdrawals(
    spec_id: SpecId,
    block_number: u64,
    beneficiary: Address,
    ommers: Seq<BlockOmmer>,
    withdrawals: Seq<Withdrawal>,
    a: Address,
)
    requires
        spec_id.spec_enables(SpecId::SHANGHAI),
    ensures
        amount_of(spec_post_block_balance_increments(spec_id, block_number, beneficiary, ommers, Some(withdrawals)), a)
            == withdrawn_to(withdrawals, a) as int % word_modulus(),
        spec_post_block_balance_increments(spec_id, block_number, beneficiary, ommers, Some(withdrawals)).contains_key(a)
            <==> withdraws_to(withdrawals, a),
{
    law_withdrawals_add_up(Map::empty(), withdrawals, a);
}

/// Before Shanghai withdrawals change nothing.
pub proof fn law_withdrawals_need_shanghai(
    spec_id: SpecId,
    block_number: u64,
    beneficiary: Address,
    ommers: Seq<BlockOmmer>,
    withdrawals: Seq<Withdrawal>,
)
    requires
        !spec_id.spec_enables(SpecId::SHANGHAI),
    ensures
        spec_post_block_balance_increments(spec_id, block_number, beneficiary, ommers, Some(withdrawals))
            == spec_post_block_balance_increments(spec_id, block_number, beneficiary, ommers, None),
{
}

/// Before the Merge, a block's beneficiary gets the base reward plus a thirty-second of it per
/// ommer, and an ommer's beneficiary (another address) gets `(8 + ommer number - block number) / 8`
/// of the base reward; with no ommers and no withdrawals only the beneficiary gets anything.
pub proof fn law_proof_of_work_rewards(
    spec_id: SpecId,
    block_number: u64,
    beneficiary: Address,
    ommer: BlockOmmer,
)
    requires
        !spec_id.spec_enables(SpecId::MERGE),
        ommer.beneficiary != beneficiary,
        block_number <= ommer.number + 8,
    ensures
        ({
            let base = spec_base_block_reward(spec_id)->0;
            let m = spec_post_block_balance_increments(spec_id, block_number, beneficiary, seq![ommer], None);
            &&& m.dom() == set![beneficiary, ommer.beneficiary]
            &&& m[beneficiary] == base + base / 32
            &&& m[ommer.beneficiary] == (8 + ommer.number - block_number) * base / 8
        }),
        ({
            let base = spec_base_block_reward(spec_id)->0;
            spec_post_block_balance_increments(spec_id, block_number, beneficiary, Seq::empty(), None) == map![
                beneficiary => base as nat,
            ]
        }),
{
    let base = spec_base_block_reward(spec_id)->0;
    let modulus = word_modulus();
    assert(base <= 5 * ONE_ETHER);
    assert(base + base / 32 < modulus);
    assert((8 + ommer.number - block_number) * base <= (u64::MAX + 8) * (5 * ONE_ETHER)) by (nonlinear_arith)
        requires
            0 <= 8 + ommer.number - block_number <= u64::MAX + 8,
            base <= 5 * ONE_ETHER,
    ;
    let o = (8 + ommer.number - block_number) * base / 8;
    assert(o < modulus);
    vstd::arithmetic::div_mod::lemma_small_mod(o as nat, modulus as nat);
    vstd::arithmetic::div_mod::lemma_small_mod((base + base / 32) as nat, modulus as nat);
    vstd::arithmetic::div_mod::lemma_small_mod(base as nat, modulus as nat);
    let s1 = seq![ommer];
    assert(s1.drop_last() =~= Seq::<BlockOmmer>::empty());
    assert(s1.last() == ommer);
    assert(ommer_increments(Map::empty(), s1.drop_last(), base, block_number) == Map::<Address, nat>::empty());
    let oi = ommer_increments(Map::empty(), s1, base, block_number);
    assert(oi == add_increment(
        Map::empty(),
        ommer.beneficiary,
        spec_ommer_reward(base, block_number, ommer.number) as nat,
    ));
    let m = spec_post_block_balance_increments(spec_id, block_number, beneficiary, s1, None);
    assert(m == add_increment(oi, beneficiary, spec_block_reward(base, 1) as nat));
    assert(m.dom() =~= set![beneficiary, ommer.beneficiary]);
    assert(spec_post_block_balance_increments(spec_id, block_number, beneficiary, Seq::empty(), None) =~= map![
        beneficiary => base as nat,
    ]);
}

} // verus!
