//! The wire format of instructions: a tag byte, then the fields in order, each
//! little-endian, and nothing after them.

use vstd::prelude::*;
use crate::bytes::{
    append_le, byte_ranges, extends, field_at, le_value_in_range, le_write_of_read, read_le,
};
use crate::int128::U128;
use crate::program::error::PercolatorError;
use crate::types::RiskParams;

verus! {

/// The tags, numbered in order.
#[derive(Clone, Copy, Debug, PartialEq, Eq, Structural)]
pub enum InstructionTag {
    /// Write the header of a slab.
    CreateSlab,
    /// Move tokens into the vault.
    Deposit,
    /// Move tokens out of the vault.
    Withdraw,
    /// Trade against the protocol LP.
    PlaceOrder,
    /// Close an account that is below maintenance margin.
    Liquidate,
    /// Do maintenance work.
    Crank,
    /// Put an engine into a slab.
    InitializeEngine,
    /// Fund the protocol LP, once.
    BootstrapLp,
    /// List a market for a fee.
    CreateMarket,
}

/// The byte of a tag.
pub open spec fn tag_code(t: InstructionTag) -> u8 {
    match t {
        InstructionTag::CreateSlab => 0,
        InstructionTag::Deposit => 1,
        InstructionTag::Withdraw => 2,
        InstructionTag::PlaceOrder => 3,
        InstructionTag::Liquidate => 4,
        InstructionTag::Crank => 5,
        InstructionTag::InitializeEngine => 6,
        InstructionTag::BootstrapLp => 7,
        InstructionTag::CreateMarket => 8,
    }
}

#[derive(Clone, Copy, Debug, PartialEq, Eq, Structural)]
pub struct CreateSlabArgs {
    /// Bump of the slab's own address, recorded as given.
    pub bump: u8,
    /// Bump of the vault address; it must derive one.
    pub vault_bump: u8,
}

#[derive(Clone, Copy, Debug, PartialEq, Eq, Structural)]
pub struct DepositArgs {
    pub amount: u64,
}

#[derive(Clone, Copy, Debug, PartialEq, Eq, Structural)]
pub struct WithdrawArgs {
    pub amount: u64,
}

#[derive(Clone, Copy, Debug, PartialEq, Eq, Structural)]
pub struct PlaceOrderArgs {
    /// 0 is long, 1 is short.
    pub side: u8,
    /// In units of `POS_SCALE`; not zero.
    pub size: u64,
    /// The oracle price must not exceed this,
    pub max_price: u64,
    /// nor be below this.
    pub min_price: u64,
}

#[derive(Clone, Copy, Debug, PartialEq, Eq, Structural)]
pub struct LiquidateArgs {
    /// Slot of the account to close.
    pub victim_slot: u16,
}

#[derive(Clone, Copy, Debug, PartialEq, Eq, Structural)]
pub struct CrankArgs {
    /// A [`CrankKind`] by its number.
    pub kind: u8,
}

#[derive(Clone, Copy, Debug, PartialEq, Eq, Structural)]
pub struct BootstrapLpArgs {
    /// Starting capital of the LP.
    pub amount: u64,
}

#[derive(Clone, Copy, Debug, PartialEq, Eq, Structural)]
pub struct CreateMarketArgs {
    /// Bump of the vault address; it must derive one.
    pub vault_bump: u8,
    /// The fee that the payer transfers to the treasury.
    pub fee_lamports: u64,
}

/// What a crank does.
#[derive(Clone, Copy, Debug, PartialEq, Eq, Structural)]
pub enum CrankKind {
    /// Accrue the market to the current slot.
    Funding,
    /// Reclaim accounts that hold dust.
    Gc,
    /// Advance the side modes.
    AdlReset,
}

impl CrankKind {
    /// The kind with this number.
    pub open spec fn of_number(v: u8) -> Option<CrankKind> {
        if v == 0 {
            Some(CrankKind::Funding)
        } else if v == 1 {
            Some(CrankKind::Gc)
        } else if v == 2 {
            Some(CrankKind::AdlReset)
        } else {
            None
        }
    }

    /// The kind with this number.
    pub fn from_u8(v: u8) -> (r: Option<CrankKind>)
        ensures
            r == CrankKind::of_number(v),
    {
        if v == 0 {
            Some(CrankKind::Funding)
        } else if v == 1 {
            Some(CrankKind::Gc)
        } else if v == 2 {
            Some(CrankKind::AdlReset)
        } else {
            None
        }
    }
}

/// [`RiskParams`] with plain integers, as they travel.
#[derive(Clone, Copy, Debug, PartialEq, Eq, Structural)]
pub struct RiskParamsArgs {
    pub maintenance_margin_bps: u64,
    pub initial_margin_bps: u64,
    pub trading_fee_bps: u64,
    pub max_accounts: u64,
    pub max_crank_staleness_slots: u64,
    pub liquidation_fee_bps: u64,
    pub liquidation_fee_cap: u128,
    pub min_liquidation_abs: u128,
    pub min_initial_deposit: u128,
    pub min_nonzero_mm_req: u128,
    pub min_nonzero_im_req: u128,
    pub insurance_floor: u128,
    pub h_min: u64,
    pub h_max: u64,
    pub resolve_price_deviation_bps: u64,
    pub max_accrual_dt_slots: u64,
    pub max_abs_funding_e9_per_slot: u64,
    pub min_funding_lifetime_slots: u64,
    pub max_active_positions_per_side: u64,
}

impl RiskParamsArgs {
    /// The engine parameters with these values.
    pub open spec fn as_params(self) -> RiskParams {
        RiskParams {
            maintenance_margin_bps: self.maintenance_margin_bps,
            initial_margin_bps: self.initial_margin_bps,
            trading_fee_bps: self.trading_fee_bps,
            max_accounts: self.max_accounts,
            max_crank_staleness_slots: self.max_crank_staleness_slots,
            liquidation_fee_bps: self.liquidation_fee_bps,
            liquidation_fee_cap: U128 { v: self.liquidation_fee_cap },
            min_liquidation_abs: U128 { v: self.min_liquidation_abs },
            min_initial_deposit: U128 { v: self.min_initial_deposit },
            min_nonzero_mm_req: self.min_nonzero_mm_req,
            min_nonzero_im_req: self.min_nonzero_im_req,
            insurance_floor: U128 { v: self.insurance_floor },
            h_min: self.h_min,
            h_max: self.h_max,
            resolve_price_deviation_bps: self.resolve_price_deviation_bps,
            max_accrual_dt_slots: self.max_accrual_dt_slots,
            max_abs_funding_e9_per_slot: self.max_abs_funding_e9_per_slot,
            min_funding_lifetime_slots: self.min_funding_lifetime_slots,
            max_active_positions_per_side: self.max_active_positions_per_side,
        }
    }

    /// The engine parameters with these values. Nothing is validated.
    pub fn into_engine_params(self) -> (r: RiskParams)
        ensures
            r == self.as_params(),
    {
        RiskParams {
            maintenance_margin_bps: self.maintenance_margin_bps,
            initial_margin_bps: self.initial_margin_bps,
            trading_fee_bps: self.trading_fee_bps,
            max_accounts: self.max_accounts,
            max_crank_staleness_slots: self.max_crank_staleness_slots,
            liquidation_fee_bps: self.liquidation_fee_bps,
            liquidation_fee_cap: U128 { v: self.liquidation_fee_cap },
            min_liquidation_abs: U128 { v: self.min_liquidation_abs },
            min_initial_deposit: U128 { v: self.min_initial_deposit },
            min_nonzero_mm_req: self.min_nonzero_mm_req,
            min_nonzero_im_req: self.min_nonzero_im_req,
            insurance_floor: U128 { v: self.insurance_floor },
            h_min: self.h_min,
            h_max: self.h_max,
            resolve_price_deviation_bps: self.resolve_price_deviation_bps,
            max_accrual_dt_slots: self.max_accrual_dt_slots,
            max_abs_funding_e9_per_slot: self.max_abs_funding_e9_per_slot,
            min_funding_lifetime_slots: self.min_funding_lifetime_slots,
            max_active_positions_per_side: self.max_active_positions_per_side,
        }
    }
}

#[derive(Clone, Copy, Debug, PartialEq, Eq, Structural)]
pub struct InitializeEngineArgs {
    pub risk_params: RiskParamsArgs,
    /// The first oracle price.
    pub init_oracle_price: u64,
}

#[derive(Clone, Copy, Debug, PartialEq, Eq, Structural)]
pub enum PercolatorInstruction {
    CreateSlab(CreateSlabArgs),
    Deposit(DepositArgs),
    Withdraw(WithdrawArgs),
    PlaceOrder(PlaceOrderArgs),
    Liquidate(LiquidateArgs),
    Crank(CrankArgs),
    InitializeEngine(InitializeEngineArgs),
    BootstrapLp(BootstrapLpArgs),
    CreateMarket(CreateMarketArgs),
}

/// Where the fields of the parameters stand in an instruction.
pub open spec fn params_fields(b: Seq<u8>, a: RiskParamsArgs) -> bool {
    &&& field_at(b, 1, 8) == a.maintenance_margin_bps
    &&& field_at(b, 9, 8) == a.initial_margin_bps
    &&& field_at(b, 17, 8) == a.trading_fee_bps
    &&& field_at(b, 25, 8) == a.max_accounts
    &&& field_at(b, 33, 8) == a.max_crank_staleness_slots
    &&& field_at(b, 41, 8) == a.liquidation_fee_bps
    &&& field_at(b, 49, 16) == a.liquidation_fee_cap
    &&& field_at(b, 65, 16) == a.min_liquidation_abs
    &&& field_at(b, 81, 16) == a.min_initial_deposit
    &&& field_at(b, 97, 16) == a.min_nonzero_mm_req
    &&& field_at(b, 113, 16) == a.min_nonzero_im_req
    &&& field_at(b, 129, 16) == a.insurance_floor
    &&& field_at(b, 145, 8) == a.h_min
    &&& field_at(b, 153, 8) == a.h_max
    &&& field_at(b, 161, 8) == a.resolve_price_deviation_bps
    &&& field_at(b, 169, 8) == a.max_accrual_dt_slots
    &&& field_at(b, 177, 8) == a.max_abs_funding_e9_per_slot
    &&& field_at(b, 185, 8) == a.min_funding_lifetime_slots
    &&& field_at(b, 193, 8) == a.max_active_positions_per_side
}

/// `b` is the wire form of the instruction.
pub open spec fn wire_form(b: Seq<u8>, ix: PercolatorInstruction) -> bool {
    &&& b.len() == wire_len(ix)
    &&& b[0] == tag_code(tag_of(ix))
    &&& match ix {
        PercolatorInstruction::CreateSlab(a) => {
            &&& field_at(b, 1, 1) == a.bump
            &&& field_at(b, 2, 1) == a.vault_bump
        },
        PercolatorInstruction::Deposit(a) => field_at(b, 1, 8) == a.amount,
        PercolatorInstruction::Withdraw(a) => field_at(b, 1, 8) == a.amount,
        PercolatorInstruction::PlaceOrder(a) => {
            &&& field_at(b, 1, 1) == a.side
            &&& field_at(b, 2, 8) == a.size
            &&& field_at(b, 10, 8) == a.max_price
            &&& field_at(b, 18, 8) == a.min_price
        },
        PercolatorInstruction::Liquidate(a) => field_at(b, 1, 2) == a.victim_slot,
        PercolatorInstruction::Crank(a) => field_at(b, 1, 1) == a.kind,
        PercolatorInstruction::InitializeEngine(a) => params_fields(b, a.risk_params) && field_at(b, 201, 8) == a.init_oracle_price,
        PercolatorInstruction::BootstrapLp(a) => field_at(b, 1, 8) == a.amount,
        PercolatorInstruction::CreateMarket(a) => {
            &&& field_at(b, 1, 1) == a.vault_bump
            &&& field_at(b, 2, 8) == a.fee_lamports
        },
    }
}

/// The tag of an instruction.
pub open spec fn tag_of(ix: PercolatorInstruction) -> InstructionTag {
    match ix {
        PercolatorInstruction::CreateSlab(_) => InstructionTag::CreateSlab,
        PercolatorInstruction::Deposit(_) => InstructionTag::Deposit,
        PercolatorInstruction::Withdraw(_) => InstructionTag::Withdraw,
        PercolatorInstruction::PlaceOrder(_) => InstructionTag::PlaceOrder,
        PercolatorInstruction::Liquidate(_) => InstructionTag::Liquidate,
        PercolatorInstruction::Crank(_) => InstructionTag::Crank,
        PercolatorInstruction::InitializeEngine(_) => InstructionTag::InitializeEngine,
        PercolatorInstruction::BootstrapLp(_) => InstructionTag::BootstrapLp,
        PercolatorInstruction::CreateMarket(_) => InstructionTag::CreateMarket,
    }
}

/// The length of its wire form.
pub open spec fn wire_len(ix: PercolatorInstruction) -> int {
    match ix {
        PercolatorInstruction::CreateSlab(_) => 3,
        PercolatorInstruction::Deposit(_) => 9,
        PercolatorInstruction::Withdraw(_) => 9,
        PercolatorInstruction::PlaceOrder(_) => 26,
        PercolatorInstruction::Liquidate(_) => 3,
        PercolatorInstruction::Crank(_) => 2,
        PercolatorInstruction::InitializeEngine(_) => 209,
        PercolatorInstruction::BootstrapLp(_) => 9,
        PercolatorInstruction::CreateMarket(_) => 10,
    }
}

/// A wire form stands for one instruction: unpacking gives back what was packed.
pub proof fn wire_form_is_unambiguous(b: Seq<u8>, x: PercolatorInstruction, y: PercolatorInstruction)
    requires
        wire_form(b, x),
        wire_form(b, y),
    ensures
        x == y,
{
}

/// An instruction has one wire form: packing gives back what was unpacked.
pub proof fn wire_form_is_canonical(b: Seq<u8>, c: Seq<u8>, ix: PercolatorInstruction)
    requires
        wire_form(b, ix),
        wire_form(c, ix),
    ensures
        b == c,
{
    match ix {
        PercolatorInstruction::CreateSlab(_) => {
            lemma_same_bytes(b, c, 1, 1);
            lemma_same_bytes(b, c, 2, 1);
        },
        PercolatorInstruction::Deposit(_) => {
            lemma_same_bytes(b, c, 1, 8);
        },
        PercolatorInstruction::Withdraw(_) => {
            lemma_same_bytes(b, c, 1, 8);
        },
        PercolatorInstruction::PlaceOrder(_) => {
            lemma_same_bytes(b, c, 1, 1);
            lemma_same_bytes(b, c, 2, 8);
            lemma_same_bytes(b, c, 10, 8);
            lemma_same_bytes(b, c, 18, 8);
        },
        PercolatorInstruction::Liquidate(_) => {
            lemma_same_bytes(b, c, 1, 2);
        },
        PercolatorInstruction::Crank(_) => {
            lemma_same_bytes(b, c, 1, 1);
        },
        PercolatorInstruction::InitializeEngine(_) => {
            lemma_same_bytes(b, c, 1, 8);
            lemma_same_bytes(b, c, 9, 8);
            lemma_same_bytes(b, c, 17, 8);
            lemma_same_bytes(b, c, 25, 8);
            lemma_same_bytes(b, c, 33, 8);
            lemma_same_bytes(b, c, 41, 8);
            lemma_same_bytes(b, c, 49, 16);
            lemma_same_bytes(b, c, 65, 16);
            lemma_same_bytes(b, c, 81, 16);
            lemma_same_bytes(b, c, 97, 16);
            lemma_same_bytes(b, c, 113, 16);
            lemma_same_bytes(b, c, 129, 16);
            lemma_same_bytes(b, c, 145, 8);
            lemma_same_bytes(b, c, 153, 8);
            lemma_same_bytes(b, c, 161, 8);
            lemma_same_bytes(b, c, 169, 8);
            lemma_same_bytes(b, c, 177, 8);
            lemma_same_bytes(b, c, 185, 8);
            lemma_same_bytes(b, c, 193, 8);
            lemma_same_bytes(b, c, 201, 8);
        },
        PercolatorInstruction::BootstrapLp(_) => {
            lemma_same_bytes(b, c, 1, 8);
        },
        PercolatorInstruction::CreateMarket(_) => {
            lemma_same_bytes(b, c, 1, 1);
            lemma_same_bytes(b, c, 2, 8);
        },
    }
    assert(b =~= c);
}

proof fn lemma_same_bytes(b: Seq<u8>, c: Seq<u8>, off: int, n: int)
    requires
        0 <= off,
        0 <= n,
        off + n <= b.len(),
        off + n <= c.len(),
        field_at(b, off, n) == field_at(c, off, n),
    ensures
        forall|j: int| off <= j < off + n ==> b[j] == c[j],
{
    let x = b.subrange(off, off + n);
    let y = c.subrange(off, off + n);
    le_write_of_read(x);
    le_write_of_read(y);
    assert forall|j: int| off <= j < off + n implies b[j] == c[j] by {
        assert(x[j - off] == y[j - off]);
    }
}

proof fn lemma_narrow(b: Seq<u8>, off: int, n: int)
    requires
        0 <= off,
        n == 1 || n == 2 || n == 8,
        off + n <= b.len(),
    ensures
        0 <= field_at(b, off, n),
        n == 1 ==> field_at(b, off, n) <= u8::MAX,
        n == 2 ==> field_at(b, off, n) <= u16::MAX,
        n == 8 ==> field_at(b, off, n) <= u64::MAX,
{
    le_value_in_range(b.subrange(off, off + n));
    byte_ranges();
}

fn get_u8(src: &[u8], off: usize) -> (r: u8)
    requires
        off + 1 <= src@.len(),
    ensures
        r == field_at(src@, off as int, 1),
{
    proof {
        lemma_narrow(src@, off as int, 1);
    }
    read_le(src, off, 1) as u8
}

fn get_u16(src: &[u8], off: usize) -> (r: u16)
    requires
        off + 2 <= src@.len(),
    ensures
        r == field_at(src@, off as int, 2),
{
    proof {
        lemma_narrow(src@, off as int, 2);
    }
    read_le(src, off, 2) as u16
}

fn get_u64(src: &[u8], off: usize) -> (r: u64)
    requires
        off + 8 <= src@.len(),
    ensures
        r == field_at(src@, off as int, 8),
{
    proof {
        lemma_narrow(src@, off as int, 8);
    }
    read_le(src, off, 8) as u64
}

fn get_u128(src: &[u8], off: usize) -> (r: u128)
    requires
        off + 16 <= src@.len(),
    ensures
        r == field_at(src@, off as int, 16),
{
    read_le(src, off, 16)
}

impl PercolatorInstruction {
    /// Decode an instruction. Bytes that are no wire form are refused.
    pub fn unpack(input: &[u8]) -> (r: Result<PercolatorInstruction, PercolatorError>)
        ensures
            match r {
                Ok(ix) => wire_form(input@, ix),
                Err(e) => e == PercolatorError::InvalidInstructionData && forall|ix: PercolatorInstruction| !wire_form(input@, ix),
            },
    {
        let bad = Err(PercolatorError::InvalidInstructionData);
        if input.len() == 0 {
            return bad;
        }
        let tag: u8 = input[0];
        let len: usize = input.len();
        if tag == 0 && len == 3 {
            Ok(PercolatorInstruction::CreateSlab(CreateSlabArgs {
                bump: get_u8(input, 1),
                vault_bump: get_u8(input, 2),
            }))
        } else if tag == 1 && len == 9 {
            Ok(PercolatorInstruction::Deposit(DepositArgs { amount: get_u64(input, 1) }))
        } else if tag == 2 && len == 9 {
            Ok(PercolatorInstruction::Withdraw(WithdrawArgs { amount: get_u64(input, 1) }))
        } else if tag == 3 && len == 26 {
            Ok(PercolatorInstruction::PlaceOrder(PlaceOrderArgs {
                side: get_u8(input, 1),
                size: get_u64(input, 2),
                max_price: get_u64(input, 10),
                min_price: get_u64(input, 18),
            }))
        } else if tag == 4 && len == 3 {
            Ok(PercolatorInstruction::Liquidate(LiquidateArgs { victim_slot: get_u16(input, 1) }))
        } else if tag == 5 && len == 2 {
            Ok(PercolatorInstruction::Crank(CrankArgs { kind: get_u8(input, 1) }))
        } else if tag == 6 && len == 209 {
            let risk_params = RiskParamsArgs {
                maintenance_margin_bps: get_u64(input, 1),
                initial_margin_bps: get_u64(input, 9),
                trading_fee_bps: get_u64(input, 17),
                max_accounts: get_u64(input, 25),
                max_crank_staleness_slots: get_u64(input, 33),
                liquidation_fee_bps: get_u64(input, 41),
                liquidation_fee_cap: get_u128(input, 49),
                min_liquidation_abs: get_u128(input, 65),
                min_initial_deposit: get_u128(input, 81),
                min_nonzero_mm_req: get_u128(input, 97),
                min_nonzero_im_req: get_u128(input, 113),
                insurance_floor: get_u128(input, 129),
                h_min: get_u64(input, 145),
                h_max: get_u64(input, 153),
                resolve_price_deviation_bps: get_u64(input, 161),
                max_accrual_dt_slots: get_u64(input, 169),
                max_abs_funding_e9_per_slot: get_u64(input, 177),
                min_funding_lifetime_slots: get_u64(input, 185),
                max_active_positions_per_side: get_u64(input, 193),
            };
            Ok(PercolatorInstruction::InitializeEngine(InitializeEngineArgs {
                risk_params,
                init_oracle_price: get_u64(input, 201),
            }))
        } else if tag == 7 && len == 9 {
            Ok(PercolatorInstruction::BootstrapLp(BootstrapLpArgs { amount: get_u64(input, 1) }))
        } else if tag == 8 && len == 10 {
            Ok(PercolatorInstruction::CreateMarket(CreateMarketArgs {
                vault_bump: get_u8(input, 1),
                fee_lamports: get_u64(input, 2),
            }))
        } else {
            bad
        }
    }

    /// The wire form of the instruction.
    pub fn pack(&self) -> (r: Vec<u8>)
        ensures
            wire_form(r@, *self),
    {
        proof {
            byte_ranges();
        }
        let mut out: Vec<u8> = Vec::new();
        match self {
            PercolatorInstruction::CreateSlab(a) => {
                out.push(0);
                append_le(&mut out, a.bump as u128, 1);
                append_le(&mut out, a.vault_bump as u128, 1);
            },
            PercolatorInstruction::Deposit(a) => {
                out.push(1);
                append_le(&mut out, a.amount as u128, 8);
            },
            PercolatorInstruction::Withdraw(a) => {
                out.push(2);
                append_le(&mut out, a.amount as u128, 8);
            },
            PercolatorInstruction::PlaceOrder(a) => {
                out.push(3);
                append_le(&mut out, a.side as u128, 1);
                append_le(&mut out, a.size as u128, 8);
                append_le(&mut out, a.max_price as u128, 8);
                append_le(&mut out, a.min_price as u128, 8);
            },
            PercolatorInstruction::Liquidate(a) => {
                out.push(4);
                append_le(&mut out, a.victim_slot as u128, 2);
            },
            PercolatorInstruction::Crank(a) => {
                out.push(5);
                append_le(&mut out, a.kind as u128, 1);
            },
            PercolatorInstruction::InitializeEngine(a) => {
                out.push(6);
                append_params(&mut out, &a.risk_params);
                append_le(&mut out, a.init_oracle_price as u128, 8);
            },
            PercolatorInstruction::BootstrapLp(a) => {
                out.push(7);
                append_le(&mut out, a.amount as u128, 8);
            },
            PercolatorInstruction::CreateMarket(a) => {
                out.push(8);
                append_le(&mut out, a.vault_bump as u128, 1);
                append_le(&mut out, a.fee_lamports as u128, 8);
            },
        }
        proof {
            let ghost b = out@;
            assert(b[0] == tag_code(tag_of(*self)));
        }
        out
    }
}

/// Append the fields of the parameters.
fn append_params(out: &mut Vec<u8>, a: &RiskParamsArgs)
    requires
        old(out)@.len() == 1,
    ensures
        final(out)@.len() == 201,
        extends(old(out)@, final(out)@),
        final(out)@[0] == old(out)@[0],
        params_fields(final(out)@, *a),
{
    append_params_first(out, a);
    append_params_second(out, a);
}

fn append_params_first(out: &mut Vec<u8>, a: &RiskParamsArgs)
    requires
        old(out)@.len() == 1,
    ensures
        final(out)@.len() == 113,
        extends(old(out)@, final(out)@),
        final(out)@[0] == old(out)@[0],
        field_at(final(out)@, 1, 8) == a.maintenance_margin_bps,
        field_at(final(out)@, 9, 8) == a.initial_margin_bps,
        field_at(final(out)@, 17, 8) == a.trading_fee_bps,
        field_at(final(out)@, 25, 8) == a.max_accounts,
        field_at(final(out)@, 33, 8) == a.max_crank_staleness_slots,
        field_at(final(out)@, 41, 8) == a.liquidation_fee_bps,
        field_at(final(out)@, 49, 16) == a.liquidation_fee_cap,
        field_at(final(out)@, 65, 16) == a.min_liquidation_abs,
        field_at(final(out)@, 81, 16) == a.min_initial_deposit,
        field_at(final(out)@, 97, 16) == a.min_nonzero_mm_req,
{
    proof {
        byte_ranges();
    }
    append_le(out, a.maintenance_margin_bps as u128, 8);
    append_le(out, a.initial_margin_bps as u128, 8);
    append_le(out, a.trading_fee_bps as u128, 8);
    append_le(out, a.max_accounts as u128, 8);
    append_le(out, a.max_crank_staleness_slots as u128, 8);
    append_le(out, a.liquidation_fee_bps as u128, 8);
    append_le(out, a.liquidation_fee_cap, 16);
    append_le(out, a.min_liquidation_abs, 16);
    append_le(out, a.min_initial_deposit, 16);
    append_le(out, a.min_nonzero_mm_req, 16);
}

fn append_params_second(out: &mut Vec<u8>, a: &RiskParamsArgs)
    requires
        old(out)@.len() == 113,
    ensures
        final(out)@.len() == 201,
        extends(old(out)@, final(out)@),
        final(out)@[0] == old(out)@[0],
        field_at(final(out)@, 113, 16) == a.min_nonzero_im_req,
        field_at(final(out)@, 129, 16) == a.insurance_floor,
        field_at(final(out)@, 145, 8) == a.h_min,
        field_at(final(out)@, 153, 8) == a.h_max,
        field_at(final(out)@, 161, 8) == a.resolve_price_deviation_bps,
        field_at(final(out)@, 169, 8) == a.max_accrual_dt_slots,
        field_at(final(out)@, 177, 8) == a.max_abs_funding_e9_per_slot,
        field_at(final(out)@, 185, 8) == a.min_funding_lifetime_slots,
        field_at(final(out)@, 193, 8) == a.max_active_positions_per_side,
{
    proof {
        byte_ranges();
    }
    append_le(out, a.min_nonzero_im_req, 16);
    append_le(out, a.insurance_floor, 16);
    append_le(out, a.h_min as u128, 8);
    append_le(out, a.h_max as u128, 8);
    append_le(out, a.resolve_price_deviation_bps as u128, 8);
    append_le(out, a.max_accrual_dt_slots as u128, 8);
    append_le(out, a.max_abs_funding_e9_per_slot as u128, 8);
    append_le(out, a.min_funding_lifetime_slots as u128, 8);
    append_le(out, a.max_active_positions_per_side as u128, 8);
}

} // verus!
