use vstd::prelude::*;

verus! {

/// An account on the ledger.
pub type AccountId = u64;

/// An amount of the ledger's currency.
pub type Balance = u128;

/// Wall-clock time in seconds.
pub type Moment = u64;

/// A 128-bit identifier of an asset or a collection.
pub type ItemId = u128;

/// How long an installment plan may stay open, in seconds (30 days).
pub const INSTALLMENT_WINDOW: u64 = 2592000;

/// Blocks between two sweeps of lapsed listings and plans (about a day).
pub const SWEEP_PERIOD: u64 = 144000;

/// Most installment periods a buyer can declare.
pub const MAX_PERIODS: u8 = 6;

/// Failures of the marketplace's operations. Every failure leaves the store
/// as it was.
#[derive(Debug, Clone, Copy, PartialEq, Eq, Structural)]
pub enum Error {
    /// No asset under that identifier.
    NoNFT,
    /// No collection under that identifier.
    NoCollection,
    /// The caller does not own the asset or collection.
    NotOwner,
    /// The generated asset identifier is already taken.
    DuplicateNFT,
    /// The generated collection identifier is already taken.
    DuplicateCollection,
    /// An installment plan is open on the asset.
    NFTInInstallment,
    /// The buyer already owns the asset.
    TransferToSelf,
    /// The asset has no priced listing that can be bought.
    NotSelling,
    /// The asset has no listing.
    NoListing,
    /// The asset has been burnt.
    BurntNFT,
    /// The collection still holds assets.
    TokenInCollection,
    /// The caller is not the payer of the open installment plan.
    NoOrder,
    /// The declared number of periods is not between one and six.
    FromOneToSixMonths,
    /// The payment is below the next amount due.
    InsufficientDeposit,
    /// The royalty percentages add up to more than a hundred.
    RoyaltyTooHigh,
    /// An account cannot pay or reserve the amount while keeping its minimum.
    InsufficientBalance,
    /// A balance would exceed the largest representable amount.
    Overflow,
}

/// A group of assets, made by `creator`, who reserved `deposit` for its
/// storage.
pub struct NFTCollection {
    pub title: Vec<u8>,
    pub description: Option<Vec<u8>>,
    pub creator: AccountId,
    pub deposit: Balance,
}

/// A unique asset. Its royalty table gives each beneficiary a percentage of
/// every sale; `deposit` is what its owner holds in reserve for its storage.
/// A burnt asset keeps its record with `burnt` set.
pub struct NonFungibleToken {
    pub title: Vec<u8>,
    pub description: Option<Vec<u8>>,
    pub media: Vec<u8>,
    pub media_hash: Vec<u8>,
    pub creator: AccountId,
    pub owner: AccountId,
    pub installment_account: Option<AccountId>,
    pub royalty: Vec<(AccountId, u8)>,
    pub collection_id: ItemId,
    pub deposit: Balance,
    pub burnt: bool,
}

/// A listing of an asset: its lister, its price (none while unpriced),
/// whether an installment plan is open on it, the deposit that the lister
/// holds in reserve, and the time after which it lapses.
#[derive(Debug, Clone, Copy, PartialEq, Eq, Structural)]
pub struct Sale {
    pub owner: AccountId,
    pub price: Option<Balance>,
    pub in_installment: bool,
    pub deposit: Balance,
    pub expires_at: Moment,
}

/// An open installment plan on an asset: who pays, since when, how much has
/// been paid (held in reserve on the payer's account), how many periods are
/// left, the least amount of the next payment, and when it was last paid.
#[derive(Debug, Clone, Copy, PartialEq, Eq, Structural)]
pub struct PayInstallmentOrder {
    pub creator: AccountId,
    pub created_at: Moment,
    pub paid: Balance,
    pub periods_left: u8,
    pub next_pay_amount: Balance,
    pub last_paid_at: Moment,
    pub nft_id: ItemId,
}

/// What a successful operation reports to outside observers.
#[derive(Debug, Clone, Copy, PartialEq, Eq, Structural)]
pub enum Event {
    Created { nft: ItemId, owner: AccountId },
    CreatedCollection { collection: ItemId, owner: AccountId },
    Edited { nft: ItemId, owner: AccountId },
    EditedCollection { collection: ItemId, owner: AccountId },
    PriceSet { nft: ItemId, price: Option<Balance> },
    SetSaleNFT { nft: ItemId, price: Option<Balance> },
    /// The asset was already listed, at this price; nothing changed.
    NFTOnSale { nft: ItemId, price: Option<Balance> },
    BurntNFT { nft: ItemId },
    DestroyCollection { collection: ItemId },
    /// A sale was paid for; `price` is what the seller received.
    Bought { seller: AccountId, buyer: AccountId, nft: ItemId, price: Balance },
    Transferred { from: AccountId, to: AccountId, nft: ItemId },
    Paid { nft_id: ItemId, periods_left: u8 },
}

/// Where an asset stands in its sale cycle.
#[derive(Debug, Clone, Copy, PartialEq, Eq, Structural)]
pub enum NftStatus {
    /// Not listed.
    Normal,
    /// Listed for immediate sale.
    Selling,
    /// Under an open installment plan.
    PayingInstalment,
}

} // verus!
