use crate::custom_types::{Address, Gas};
use crate::parameters::{
    GAS_APPLY_CROSS_TRANSFER, GAS_APPLY_CROSS_TRANSFER_ALL, GAS_CREATE_CROSS_TRANSFER,
    GAS_CREATE_CROSS_TRANSFER_ALL, GAS_TRANSFER,
};
use vstd::prelude::*;

verus! {

/// The operations of the on-chain virtual machine.
#[derive(Clone, Copy, PartialEq, Eq, Structural, Debug)]
pub enum FunctionType {
    /// Balance transfer inside one shard.
    Transfer,
    /// First half of a balance transfer to another shard.
    CreateCrossTransfer,
    /// Second half of a balance transfer from another shard.
    ApplyCrossTransfer,
    /// First half of moving a whole account to another shard.
    CreateCrossTransferAll,
    /// Second half of moving a whole account from another shard.
    ApplyCrossTransferAll,
}

impl FunctionType {
    /// Gas that a function of this kind costs.
    pub open spec fn spec_gas(self) -> Gas {
        match self {
            FunctionType::Transfer => GAS_TRANSFER,
            FunctionType::CreateCrossTransfer => GAS_CREATE_CROSS_TRANSFER,
            FunctionType::ApplyCrossTransfer => GAS_APPLY_CROSS_TRANSFER,
            FunctionType::CreateCrossTransferAll => GAS_CREATE_CROSS_TRANSFER_ALL,
            FunctionType::ApplyCrossTransferAll => GAS_APPLY_CROSS_TRANSFER_ALL,
        }
    }
}

/// Unit of operation in a transaction.
#[derive(Debug)]
pub struct Function {
    pub source: Address,
    pub target: Address,
    pub ftype: FunctionType,
    pub calldata: String,
}

/// What a `Function` holds, with its call data as a sequence of characters.
pub struct FunctionView {
    pub source: Address,
    pub target: Address,
    pub ftype: FunctionType,
    pub calldata: Seq<char>,
}

impl View for Function {
    type V = FunctionView;

    open spec fn view(&self) -> FunctionView {
        FunctionView {
            source: self.source,
            target: self.target,
            ftype: self.ftype,
            calldata: self.calldata@,
        }
    }
}

impl Clone for Function {
    fn clone(&self) -> (copy: Self)
        ensures
            copy == *self,
    {
        Function {
            source: self.source,
            target: self.target,
            ftype: self.ftype,
            calldata: self.calldata.clone(),
        }
    }
}

impl Function {
    /// Gas that the function costs, fixed by its kind.
    pub fn gas(&self) -> (gas: Gas)
        ensures
            gas == self.ftype.spec_gas(),
    {
        match self.ftype {
            FunctionType::Transfer => GAS_TRANSFER,
            FunctionType::CreateCrossTransfer => GAS_CREATE_CROSS_TRANSFER,
            FunctionType::ApplyCrossTransfer => GAS_APPLY_CROSS_TRANSFER,
            FunctionType::CreateCrossTransferAll => GAS_CREATE_CROSS_TRANSFER_ALL,
            FunctionType::ApplyCrossTransferAll => GAS_APPLY_CROSS_TRANSFER_ALL,
        }
    }
}

} // verus!
