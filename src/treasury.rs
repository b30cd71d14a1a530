//! The treasury: what the account can spend once its obligations are met.
use vstd::prelude::*;

verus! {

/// Kept in the account whatever is proposed: ten NEAR, in yoctoNEAR.
pub const FUND_RESERVE: u128 = 10_000_000_000_000_000_000_000_000;

/// The account's figures as the host reports them at the time of a call.
#[derive(Clone, Copy, Debug)]
pub struct HostAccount {
    /// Free balance.
    pub balance: u128,
    /// Balance locked by staking.
    pub locked_balance: u128,
    /// Bytes of storage the account uses.
    pub storage_usage: u64,
    /// Price of one byte of storage.
    pub storage_byte_cost: u128,
}

/// Balance owed for storage.
pub open spec fn storage_liability(host: HostAccount) -> int {
    host.storage_byte_cost * host.storage_usage
}

/// Free balance less locked balance, storage liability, the fixed reserve
/// and what open fund requests have reserved; possibly negative.
pub open spec fn surplus(host: HostAccount, reserved: nat) -> int {
    host.balance - host.locked_balance - storage_liability(host) - FUND_RESERVE - reserved
}

/// What the treasury can spend: the surplus, or nothing where there is none.
pub open spec fn spendable(host: HostAccount, reserved: nat) -> nat {
    if surplus(host, reserved) > 0 {
        surplus(host, reserved) as nat
    } else {
        0
    }
}

/// Price of `bytes` bytes of storage, where it fits in a `u128`.
pub fn storage_cost(storage_byte_cost: u128, bytes: u64) -> (r: Option<u128>)
    ensures
        match r {
            Some(v) => v as int == storage_byte_cost * bytes,
            None => storage_byte_cost * bytes > u128::MAX,
        },
{
    let usage = bytes as u128;
    if usage != 0 && storage_byte_cost > u128::MAX / usage {
        assert(storage_byte_cost * usage > u128::MAX) by (nonlinear_arith)
            requires usage > 0, storage_byte_cost > u128::MAX / usage;
        None
    } else {
        assert(storage_byte_cost * usage <= u128::MAX) by (nonlinear_arith)
            requires usage == 0 || storage_byte_cost <= u128::MAX / usage;
        Some(storage_byte_cost * usage)
    }
}

/// Storage liability, where it fits in a `u128`.
pub fn account_locked_for_storage(host: &HostAccount) -> (r: Option<u128>)
    ensures
        match r {
            Some(v) => v as int == storage_liability(*host),
            None => storage_liability(*host) > u128::MAX,
        },
{
    storage_cost(host.storage_byte_cost, host.storage_usage)
}

/// What goes back to a caller who attached `attached_deposit` to a call whose
/// storage costs `required`: `None` when the deposit falls short, else the
/// excess, or nothing where the excess is a single unit or none.
pub fn storage_refund(required: u128, attached_deposit: u128) -> (r: Option<u128>)
    ensures
        required > attached_deposit ==> r is None,
        required <= attached_deposit ==> r == Some(
            if attached_deposit - required > 1 {
                (attached_deposit - required) as u128
            } else {
                0u128
            },
        ),
{
    if required > attached_deposit {
        return None;
    }
    let refund = attached_deposit - required;
    if refund > 1 {
        Some(refund)
    } else {
        Some(0)
    }
}

/// What the treasury can spend while `reserved` is promised to open fund requests.
pub fn spendable_balance(host: &HostAccount, reserved: u128) -> (r: u128)
    ensures
        r as nat == spendable(*host, reserved as nat),
{
    let storage = match account_locked_for_storage(host) {
        Some(v) => v,
        None => return 0,
    };
    if host.balance < host.locked_balance {
        return 0;
    }
    let mut left: u128 = host.balance - host.locked_balance;
    if left < storage {
        return 0;
    }
    left = left - storage;
    if left < FUND_RESERVE {
        return 0;
    }
    left = left - FUND_RESERVE;
    if left < reserved {
        return 0;
    }
    left - reserved
}

} // verus!
