//! Execution-layer system calls around a block: which system contracts are called before and
//! after the block's transactions, with what input, and which missing or inconsistent block
//! data stops the block.
//!
//! The calls themselves run bytecode already present at the system contracts and are made by the
//! host; here are the decisions.

use vstd::prelude::*;
use crate::config::SpecId;
use crate::evm::{BlockExecutionError, Evm};
use crate::host::InstrStop;
use crate::primitives::{Address, B256};

verus! {

/// Gas limit of execution-layer system calls.
pub const SYSTEM_CALL_GAS_LIMIT: u64 = 30_000_000u64;

/// The caller of execution-layer system calls, `0xfffffffffffffffffffffffffffffffffffffffe`.
pub fn system_address() -> (r: Address)
    ensures
        r == (Address { hi: 0xffff_ffff_ffff_ffff, mid: 0xffff_ffff_ffff_ffff, lo: 0xffff_fffe }),
{
    Address { hi: 0xffff_ffff_ffff_ffff, mid: 0xffff_ffff_ffff_ffff, lo: 0xffff_fffe }
}

/// EIP-4788 beacon roots contract, `0x000F3df6D732807Ef1319fB7B8bB8522d0Beac02`.
pub open spec fn spec_beacon_roots_address() -> Address {
    Address { hi: 0x000f_3df6_d732_807e, mid: 0xf131_9fb7_b8bb_8522, lo: 0xd0be_ac02 }
}

/// EIP-2935 history storage contract, `0x0000F90827F1C53a10cb7A02335B175320002935`.
pub open spec fn spec_history_storage_address() -> Address {
    Address { hi: 0x0000_f908_27f1_c53a, mid: 0x10cb_7a02_335b_1753, lo: 0x2000_2935 }
}

/// EIP-7002 withdrawal request contract, `0x00000961Ef480Eb55e80D19ad83579A64c007002`.
pub open spec fn spec_withdrawal_request_address() -> Address {
    Address { hi: 0x0000_0961_ef48_0eb5, mid: 0x5e80_d19a_d835_79a6, lo: 0x4c00_7002 }
}

/// EIP-7251 consolidation request contract, `0x0000BBdDc7CE488642fb579F8B00f3a590007251`.
pub open spec fn spec_consolidation_request_address() -> Address {
    Address { hi: 0x0000_bbdd_c7ce_4886, mid: 0x42fb_579f_8b00_f3a5, lo: 0x9000_7251 }
}

/// A system call around a block.
#[derive(Clone, Copy, Debug, PartialEq, Eq, Structural)]
pub enum BlockSystemCall {
    /// EIP-2935: store the parent block hash.
    HistoryStorage { parent_block_hash: B256 },
    /// EIP-4788: store the parent beacon block root.
    BeaconRoots { parent_beacon_block_root: B256 },
    /// EIP-7002: collect withdrawal requests.
    WithdrawalRequests,
    /// EIP-7251: collect consolidation requests.
    ConsolidationRequests,
}

impl BlockSystemCall {
    pub open spec fn spec_address(self) -> Address {
        match self {
            BlockSystemCall::HistoryStorage { .. } => spec_history_storage_address(),
            BlockSystemCall::BeaconRoots { .. } => spec_beacon_roots_address(),
            BlockSystemCall::WithdrawalRequests => spec_withdrawal_request_address(),
            BlockSystemCall::ConsolidationRequests => spec_consolidation_request_address(),
        }
    }

    /// The system contract called.
    pub fn address(&self) -> (r: Address)
        ensures
            r == self.spec_address(),
    {
        match self {
            BlockSystemCall::HistoryStorage { .. } => Address {
                hi: 0x0000_f908_27f1_c53a,
                mid: 0x10cb_7a02_335b_1753,
                lo: 0x2000_2935,
            },
            BlockSystemCall::BeaconRoots { .. } => Address {
                hi: 0x000f_3df6_d732_807e,
                mid: 0xf131_9fb7_b8bb_8522,
                lo: 0xd0be_ac02,
            },
            BlockSystemCall::WithdrawalRequests => Address {
                hi: 0x0000_0961_ef48_0eb5,
                mid: 0x5e80_d19a_d835_79a6,
                lo: 0x4c00_7002,
            },
            BlockSystemCall::ConsolidationRequests => Address {
                hi: 0x0000_bbdd_c7ce_4886,
                mid: 0x42fb_579f_8b00_f3a5,
                lo: 0x9000_7251,
            },
        }
    }

    /// The call's name, by its EIP.
    pub fn label(&self) -> (r: &'static str)
        ensures
            r@ == match *self {
                BlockSystemCall::HistoryStorage { .. } => "eip2935"@,
                BlockSystemCall::BeaconRoots { .. } => "eip4788"@,
                BlockSystemCall::WithdrawalRequests => "eip7002"@,
                BlockSystemCall::ConsolidationRequests => "eip7251"@,
            },
    {
        match self {
            BlockSystemCall::HistoryStorage { .. } => "eip2935",
            BlockSystemCall::BeaconRoots { .. } => "eip4788",
            BlockSystemCall::WithdrawalRequests => "eip7002",
            BlockSystemCall::ConsolidationRequests => "eip7251",
        }
    }

    pub open spec fn spec_request_type(self) -> Option<u8> {
        match self {
            BlockSystemCall::WithdrawalRequests => Some(1u8),
            BlockSystemCall::ConsolidationRequests => Some(2u8),
            _ => None,
        }
    }

    /// The EIP-7685 type of the requests the call returns: `0x01` for EIP-7002 withdrawal
    /// requests, `0x02` for EIP-7251 consolidation requests; the pre-block calls return none.
    pub fn request_type(&self) -> (r: Option<u8>)
        ensures
            r == self.spec_request_type(),
    {
        match self {
            BlockSystemCall::WithdrawalRequests => Some(1u8),
            BlockSystemCall::ConsolidationRequests => Some(2u8),
            _ => None,
        }
    }

    /// The call's input: the stored hash, or nothing.
    pub fn input(&self) -> (r: Option<B256>)
        ensures
            r == match *self {
                BlockSystemCall::HistoryStorage { parent_block_hash } => Some(parent_block_hash),
                BlockSystemCall::BeaconRoots { parent_beacon_block_root } => Some(
                    parent_beacon_block_root,
                ),
                _ => None::<B256>,
            },
    {
        match self {
            BlockSystemCall::HistoryStorage { parent_block_hash } => Some(*parent_block_hash),
            BlockSystemCall::BeaconRoots { parent_beacon_block_root } => Some(
                *parent_beacon_block_root,
            ),
            _ => None,
        }
    }
}

/// The pre-block system calls, in order, and how the block proceeds after they succeed.
pub open spec fn spec_pre_block_plan(
    spec_id: SpecId,
    block_number_is_zero: bool,
    parent_block_hash: B256,
    parent_beacon_block_root: Option<B256>,
) -> (Seq<BlockSystemCall>, Result<(), BlockExecutionError>) {
    let history = if spec_id.spec_enables(SpecId::PRAGUE) && !block_number_is_zero {
        seq![BlockSystemCall::HistoryStorage { parent_block_hash }]
    } else {
        Seq::empty()
    };
    if !spec_id.spec_enables(SpecId::CANCUN) {
        (history, Ok(()))
    } else {
        match parent_beacon_block_root {
            None => (history, Err(BlockExecutionError::MissingParentBeaconBlockRoot)),
            Some(root) => if block_number_is_zero {
                if root != B256::spec_zero() {
                    (
                        history,
                        Err(
                            BlockExecutionError::CancunGenesisParentBeaconBlockRootNotZero {
                                parent_beacon_block_root: root,
                            },
                        ),
                    )
                } else {
                    (history, Ok(()))
                }
            } else {
                (
                    history.push(BlockSystemCall::BeaconRoots { parent_beacon_block_root: root }),
                    Ok(()),
                )
            },
        }
    }
}

/// Gas charged for a system call that left `remaining` of [`SYSTEM_CALL_GAS_LIMIT`]: the gas
/// spent, less the refund where the call succeeded and the refund is positive; both steps
/// saturate at zero.
pub open spec fn spec_system_call_gas_used(remaining: u64, refunded: i64, succeeded: bool) -> u64 {
    let spent: int = if remaining <= SYSTEM_CALL_GAS_LIMIT { SYSTEM_CALL_GAS_LIMIT - remaining } else { 0 };
    let refund: int = if succeeded && refunded > 0 { refunded as int } else { 0 };
    if refund <= spent { (spent - refund) as u64 } else { 0 }
}

/// Gas used by a system call, from the gas it left and the refund it earned.
pub fn system_call_gas_used(remaining: u64, refunded: i64, succeeded: bool) -> (r: u64)
    ensures
        r == spec_system_call_gas_used(remaining, refunded, succeeded),
{
    let spent = SYSTEM_CALL_GAS_LIMIT.saturating_sub(remaining);
    let refund: u64 = if succeeded && refunded > 0 { refunded as u64 } else { 0 };
    spent.saturating_sub(refund)
}

/// The EIP-7685 request a call returning `output` adds: its type byte followed by the output,
/// where the call has a request type and the output is not empty.
pub open spec fn spec_request_of(call: BlockSystemCall, output: Seq<u8>) -> Seq<Seq<u8>> {
    match call.spec_request_type() {
        Some(t) => if output.len() > 0 { seq![seq![t] + output] } else { Seq::empty() },
        None => Seq::empty(),
    }
}

/// The requests of the first `k` calls, in call order.
pub open spec fn spec_requests_upto(calls: Seq<BlockSystemCall>, outputs: Seq<Seq<u8>>, k: int) -> Seq<Seq<u8>>
    decreases k,
{
    if k <= 0 {
        Seq::empty()
    } else {
        spec_requests_upto(calls, outputs, k - 1) + spec_request_of(calls[k - 1], outputs[k - 1])
    }
}

/// The requests of post-block system calls from how each stopped and what it returned, in call
/// order: the first call whose stop is not a success stops the block with its name, address
/// and stop; otherwise each non-empty output of a request-collecting call becomes one request,
/// its type byte first.
pub fn collect_system_call_requests(
    calls: &Vec<BlockSystemCall>,
    stops: &Vec<InstrStop>,
    outputs: &Vec<Vec<u8>>,
) -> (r: Result<Vec<Vec<u8>>, BlockExecutionError>)
    requires
        stops.len() == calls.len(),
        outputs.len() == calls.len(),
    ensures
        r is Ok <==> forall|i: int| 0 <= i < calls.len() ==> (#[trigger] stops@[i]).spec_is_success(),
        r is Ok ==> ({
            let want = spec_requests_upto(calls@, outputs@.map_values(|o: Vec<u8>| o@), calls.len() as int);
            &&& r->Ok_0@.len() == want.len()
            &&& forall|i: int| 0 <= i < want.len() ==> #[trigger] r->Ok_0@[i]@ == want[i]
        }),
        r is Err ==> exists|j: int|
            0 <= j < calls.len() && !(#[trigger] stops@[j]).spec_is_success() && (forall|i: int|
                0 <= i < j ==> stops@[i].spec_is_success()) && r->Err_0 == (BlockExecutionError::SystemCall {
                call: calls@[j],
                address: calls@[j].spec_address(),
                stop: stops@[j],
            }),
{
    let ghost outs = outputs@.map_values(|o: Vec<u8>| o@);
    let mut requests: Vec<Vec<u8>> = Vec::new();
    let mut i: usize = 0;
    while i < calls.len()
        invariant
            stops.len() == calls.len(),
            outputs.len() == calls.len(),
            outs == outputs@.map_values(|o: Vec<u8>| o@),
            0 <= i <= calls.len(),
            forall|k: int| 0 <= k < i ==> (#[trigger] stops@[k]).spec_is_success(),
            requests@.len() == spec_requests_upto(calls@, outs, i as int).len(),
            forall|k: int|
                0 <= k < requests@.len() ==> #[trigger] requests@[k]@ == spec_requests_upto(calls@, outs, i as int)[k],
        decreases calls.len() - i,
    {
        let call = calls[i];
        let stop = stops[i];
        if !stop.is_success() {
            return Err(BlockExecutionError::SystemCall { call, address: call.address(), stop });
        }
        let ghost before = spec_requests_upto(calls@, outs, i as int);
        let output = &outputs[i];
        match call.request_type() {
            Some(t) => {
                if output.len() > 0 {
                    let mut request: Vec<u8> = Vec::new();
                    request.push(t);
                    let mut j: usize = 0;
                    while j < output.len()
                        invariant
                            0 <= j <= output.len(),
                            request@ == seq![t] + output@.take(j as int),
                        decreases output.len() - j,
                    {
                        request.push(output[j]);
                        j = j + 1;
                        assert(output@.take(j as int) =~= output@.take((j - 1) as int).push(output@[j - 1]));
                        assert(request@ =~= seq![t] + output@.take(j as int));
                    }
                    assert(output@.take(output.len() as int) =~= output@);
                    requests.push(request);
                    assert(outs[i as int] == output@);
                    assert(spec_request_of(call, outs[i as int]) =~= seq![seq![t] + output@]);
                } else {
                    assert(outs[i as int] == output@);
                    assert(spec_request_of(call, outs[i as int]) =~= Seq::<Seq<u8>>::empty());
                }
            },
            None => {
                assert(spec_request_of(call, outs[i as int]) =~= Seq::<Seq<u8>>::empty());
            },
        }
        assert(spec_requests_upto(calls@, outs, (i + 1) as int) == before + spec_request_of(call, outs[i as int]));
        i = i + 1;
    }
    Ok(requests)
}

/// Every fork from Prague on plans the pre-block calls as Prague does, and every fork from Cancun
/// up to Prague as Cancun does; from Prague on, outside genesis, the first call stores the parent
/// block hash (EIP-2935), and from Cancun on, outside genesis and with a beacon root, the last
/// call stores that root (EIP-4788) and the block proceeds.
pub proof fn law_pre_block_calls_by_fork(
    spec_id: SpecId,
    block_number_is_zero: bool,
    parent_block_hash: B256,
    parent_beacon_block_root: Option<B256>,
)
    ensures
        spec_id.spec_enables(SpecId::PRAGUE) ==> spec_pre_block_plan(
            spec_id,
            block_number_is_zero,
            parent_block_hash,
            parent_beacon_block_root,
        ) == spec_pre_block_plan(SpecId::PRAGUE, block_number_is_zero, parent_block_hash, parent_beacon_block_root),
        spec_id.spec_enables(SpecId::CANCUN) && !spec_id.spec_enables(SpecId::PRAGUE) ==> spec_pre_block_plan(
            spec_id,
            block_number_is_zero,
            parent_block_hash,
            parent_beacon_block_root,
        ) == spec_pre_block_plan(SpecId::CANCUN, block_number_is_zero, parent_block_hash, parent_beacon_block_root),
        spec_id.spec_enables(SpecId::PRAGUE) && !block_number_is_zero ==> ({
            let calls = spec_pre_block_plan(spec_id, block_number_is_zero, parent_block_hash, parent_beacon_block_root).0;
            calls.len() >= 1 && calls[0] == (BlockSystemCall::HistoryStorage { parent_block_hash })
        }),
        spec_id.spec_enables(SpecId::CANCUN) && !block_number_is_zero && parent_beacon_block_root is Some ==> ({
            let plan = spec_pre_block_plan(spec_id, block_number_is_zero, parent_block_hash, parent_beacon_block_root);
            &&& plan.1 is Ok
            &&& plan.0.len() >= 1
            &&& plan.0.last() == (BlockSystemCall::BeaconRoots {
                parent_beacon_block_root: parent_beacon_block_root->0,
            })
        }),
        spec_id.spec_enables(SpecId::CANCUN) && parent_beacon_block_root is None ==> spec_pre_block_plan(
            spec_id,
            block_number_is_zero,
            parent_block_hash,
            parent_beacon_block_root,
        ).1 == Err::<(), BlockExecutionError>(BlockExecutionError::MissingParentBeaconBlockRoot),
        spec_id.spec_enables(SpecId::CANCUN) && block_number_is_zero && parent_beacon_block_root is Some
            && parent_beacon_block_root->0 != B256::spec_zero() ==> spec_pre_block_plan(
            spec_id,
            block_number_is_zero,
            parent_block_hash,
            parent_beacon_block_root,
        ).1 == Err::<(), BlockExecutionError>(
            BlockExecutionError::CancunGenesisParentBeaconBlockRootNotZero {
                parent_beacon_block_root: parent_beacon_block_root->0,
            },
        ),
        !spec_id.spec_enables(SpecId::CANCUN) ==> ({
            let plan = spec_pre_block_plan(spec_id, block_number_is_zero, parent_block_hash, parent_beacon_block_root);
            plan.1 is Ok && plan.0.len() == (if spec_id.spec_enables(SpecId::PRAGUE) && !block_number_is_zero {
                1int
            } else {
                0int
            })
        }),
        block_number_is_zero ==> spec_pre_block_plan(
            spec_id,
            block_number_is_zero,
            parent_block_hash,
            parent_beacon_block_root,
        ).0.len() == 0,
{
}

impl Evm {
    /// The system calls to make before the block's transactions, in order, with the outcome once
    /// they all succeed: from Prague, outside genesis, the EIP-2935 call with the parent hash;
    /// from Cancun the parent beacon root is required, must be zero at genesis, and outside
    /// genesis is stored by the EIP-4788 call.
    pub fn pre_block_system_calls(&self, parent_block_hash: B256, parent_beacon_block_root: Option<B256>) -> (r: (Vec<BlockSystemCall>, Result<(), BlockExecutionError>))
        ensures
            ({
                let plan = spec_pre_block_plan(
                    self.spec_spec_id(),
                    self.spec_block().number.val() == 0,
                    parent_block_hash,
                    parent_beacon_block_root,
                );
                r.0@ == plan.0 && r.1 == plan.1
            }),
    {
        let spec_id = self.spec_id();
        let genesis = self.block().number.is_zero();
        let mut calls: Vec<BlockSystemCall> = Vec::new();
        if spec_id.enables(SpecId::PRAGUE) && !genesis {
            calls.push(BlockSystemCall::HistoryStorage { parent_block_hash });
        }
        let ghost history = calls@;
        proof {
            if spec_id.spec_enables(SpecId::PRAGUE) && !genesis {
                assert(history =~= seq![BlockSystemCall::HistoryStorage { parent_block_hash }]);
            } else {
                assert(history =~= Seq::<BlockSystemCall>::empty());
            }
        }
        if !spec_id.enables(SpecId::CANCUN) {
            return (calls, Ok(()));
        }
        let root = match parent_beacon_block_root {
            Some(root) => root,
            None => {
                return (calls, Err(BlockExecutionError::MissingParentBeaconBlockRoot));
            },
        };
        if genesis {
            if !root.is_zero() {
                return (
                    calls,
                    Err(
                        BlockExecutionError::CancunGenesisParentBeaconBlockRootNotZero {
                            parent_beacon_block_root: root,
                        },
                    ),
                );
            }
            return (calls, Ok(()));
        }
        calls.push(BlockSystemCall::BeaconRoots { parent_beacon_block_root: root });
        (calls, Ok(()))
    }

    /// The system calls to make after the block's transactions: from Prague, the EIP-7002 and
    /// EIP-7251 request calls, in that order.
    pub fn post_block_system_calls(&self) -> (r: Vec<BlockSystemCall>)
        ensures
            r@ == if self.spec_spec_id().spec_enables(SpecId::PRAGUE) {
                seq![BlockSystemCall::WithdrawalRequests, BlockSystemCall::ConsolidationRequests]
            } else {
                Seq::<BlockSystemCall>::empty()
            },
    {
        let mut calls: Vec<BlockSystemCall> = Vec::new();
        if self.spec_id().enables(SpecId::PRAGUE) {
            calls.push(BlockSystemCall::WithdrawalRequests);
            calls.push(BlockSystemCall::ConsolidationRequests);
            assert(calls@ =~= seq![
                BlockSystemCall::WithdrawalRequests,
                BlockSystemCall::ConsolidationRequests,
            ]);
        } else {
            assert(calls@ =~= Seq::<BlockSystemCall>::empty());
        }
        calls
    }
}

} // verus!
