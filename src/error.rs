use vstd::prelude::*;

verus! {

/// Every failure the library reports, as one flat sum.
#[derive(Debug, Clone, Copy, PartialEq, Eq, Structural)]
pub enum Error {
    PreviousBlockNotFound,
    BlockExistButIsNotInAnyBranch,
    VerifyingGenesisBlock,
    BlockContainsNoTransaction,
    BlockProofOfWorkIsNotDone,
    BlockHashIsInvalid,
    BlockAlreadyExist,
    BlockIndexAreNotContiguous,
    BlockPrevHashDoesNotMatch,
    TransactionWasAlreadyDone,
    TryingToSendMoneyFromUnknowUser,
    TransactionOf0,
    WrongTransactionSignature,
    SenderDoNotHaveEnoughMoney,
    /// A credit would take a balance past the largest representable amount.
    AmountOverflow,
    /// The block pool already holds as many blocks as a `u32` position can name.
    BlockPoolIsFull,
    TcpListenerBind,
    TcpStreamConnect,
    TcpFailToSend,
    MiningInterupted,
    FailToGetMerkle,
    NotFound,
    InvalidFormat,
    EndOfBuffer,
}

} // verus!
