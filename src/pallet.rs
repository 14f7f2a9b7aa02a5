use std::collections::HashMap;
use vstd::prelude::*;

use crate::ids::{blake2_128, encode_payload, from_le_bytes, id_of};
use crate::ledger::{after_all, balance_in, can_pay_all, unreserved, Ledger, LedgerView};
use crate::settlement::{
    lemma_sale_pays_price, payout_total, percent_total, sale_payouts, seller_proceeds, settle,
};
use crate::types::{
    AccountId, Balance, Error, Event, ItemId, Moment, NFTCollection, NonFungibleToken, NftStatus,
    PayInstallmentOrder, Sale, INSTALLMENT_WINDOW, MAX_PERIODS, SWEEP_PERIOD,
};

verus! {

broadcast use vstd::std_specs::hash::group_hash_axioms;

/// What the store holds: its four tables, the balances, its settings, and
/// the events of its operations so far.
pub ghost struct PalletView {
    pub collections: Map<ItemId, NFTCollection>,
    pub tokens: Map<ItemId, NonFungibleToken>,
    pub sales: Map<ItemId, Sale>,
    pub orders: Map<ItemId, PayInstallmentOrder>,
    pub ledger: LedgerView,
    pub deposit_per_byte: Balance,
    pub sale_deposit: Balance,
    pub events: Seq<Event>,
}

/// The consistency of the tables: a listing is for a live asset and was made
/// by its owner; a plan is open exactly on the listings marked as under
/// installment, which are priced; no royalty table gives away more than the
/// whole price.
pub open spec fn consistent(v: PalletView) -> bool {
    &&& forall|id: ItemId| #[trigger]
        v.tokens.contains_key(id) ==> percent_total(v.tokens[id].royalty@) <= 100
    &&& forall|id: ItemId| #[trigger]
        v.sales.contains_key(id) ==> v.tokens.contains_key(id) && !v.tokens[id].burnt
            && v.sales[id].owner == v.tokens[id].owner
    &&& forall|id: ItemId| #[trigger]
        v.orders.contains_key(id) ==> v.sales.contains_key(id) && v.sales[id].in_installment
            && v.sales[id].price is Some && v.orders[id].nft_id == id
    &&& forall|id: ItemId|
        #[trigger] v.sales.contains_key(id) && v.sales[id].in_installment ==> v.orders.contains_key(
            id,
        )
}

/// The length of an optional byte string, zero when absent.
pub open spec fn opt_len(d: Option<Vec<u8>>) -> int {
    match d {
        Some(v) => v@.len() as int,
        None => 0,
    }
}

/// `per_byte` times `bytes`, capped at the largest amount.
pub open spec fn capped_deposit(per_byte: Balance, bytes: int) -> Balance {
    if per_byte * bytes <= u128::MAX {
        (per_byte * bytes) as Balance
    } else {
        u128::MAX
    }
}

/// The bytes that a collection's record takes.
pub open spec fn collection_bytes(title: Seq<u8>, description: Option<Vec<u8>>) -> int {
    title.len() + opt_len(description) + 16
}

/// The bytes that an asset's record takes.
pub open spec fn token_bytes(
    title: Seq<u8>,
    description: Option<Vec<u8>>,
    media: Seq<u8>,
    media_hash: Seq<u8>,
    royalty: Seq<(AccountId, u8)>,
) -> int {
    title.len() + opt_len(description) + media.len() + media_hash.len() + 16 * royalty.len() + 16
        + 32
}

/// Whether `amount` can be reserved from the free balance of `who`.
pub open spec fn can_reserve(l: LedgerView, who: AccountId, amount: Balance) -> bool {
    balance_in(l.free, who) >= amount && balance_in(l.reserved, who) + amount <= u128::MAX
}

/// The ledger after `amount` of the free balance of `who` went into reserve.
pub open spec fn reserved_more(l: LedgerView, who: AccountId, amount: Balance) -> LedgerView {
    LedgerView {
        free: l.free.insert(who, (balance_in(l.free, who) - amount) as Balance),
        reserved: l.reserved.insert(who, (balance_in(l.reserved, who) + amount) as Balance),
        minimum: l.minimum,
    }
}

/// Where an asset stands, from its listing.
pub open spec fn status_of(v: PalletView, id: ItemId) -> NftStatus {
    if !v.sales.contains_key(id) {
        NftStatus::Normal
    } else if v.sales[id].in_installment {
        NftStatus::PayingInstalment
    } else {
        NftStatus::Selling
    }
}

/// Whether a live asset belongs to the collection `id`.
pub open spec fn collection_in_use(v: PalletView, id: ItemId) -> bool {
    exists|k: ItemId|
        #[trigger] v.tokens.contains_key(k) && !v.tokens[k].burnt && v.tokens[k].collection_id == id
}

/// The least amount of the next installment: what is left of the price,
/// shared over the periods left (at least one), rounded down.
pub open spec fn next_payment(remaining: int, periods_left: u8) -> int {
    remaining / (if periods_left == 0 {
        1
    } else {
        periods_left as int
    })
}

/// What is left of `price` after `paid`, zero when nothing is.
pub open spec fn left_to_pay(price: Balance, paid: Balance) -> int {
    if paid >= price {
        0
    } else {
        price - paid
    }
}

/// The store after `payer` opened a plan on the listed asset `id` with a
/// first payment of `amount`, held in reserve.
pub open spec fn plan_opened(
    v: PalletView,
    id: ItemId,
    payer: AccountId,
    periods: u8,
    amount: Balance,
    now: Moment,
) -> PalletView {
    let price = v.sales[id].price->Some_0;
    PalletView {
        tokens: v.tokens.insert(id, NonFungibleToken { installment_account: Some(payer), ..v.tokens[id] }),
        sales: v.sales.insert(id, Sale { in_installment: true, ..v.sales[id] }),
        orders: v.orders.insert(
            id,
            PayInstallmentOrder {
                creator: payer,
                created_at: now,
                paid: amount,
                periods_left: (periods - 1) as u8,
                next_pay_amount: next_payment(left_to_pay(price, amount), (periods - 1) as u8) as Balance,
                last_paid_at: now,
                nft_id: id,
            },
        ),
        ledger: reserved_more(v.ledger, payer, amount),
        events: v.events.push(Event::Paid { nft_id: id, periods_left: (periods - 1) as u8 }),
        ..v
    }
}

/// The store after the payer of the plan on `id` paid `amount` more, held
/// in reserve, without reaching the price.
pub open spec fn plan_advanced(v: PalletView, id: ItemId, amount: Balance, now: Moment) -> PalletView {
    let o = v.orders[id];
    let price = v.sales[id].price->Some_0;
    let paid = (o.paid + amount) as Balance;
    let left = if o.periods_left > 0 {
        (o.periods_left - 1) as u8
    } else {
        0u8
    };
    PalletView {
        orders: v.orders.insert(
            id,
            PayInstallmentOrder {
                paid,
                periods_left: left,
                next_pay_amount: next_payment(left_to_pay(price, paid), left) as Balance,
                last_paid_at: now,
                ..o
            },
        ),
        ledger: reserved_more(v.ledger, o.creator, amount),
        events: v.events.push(Event::Paid { nft_id: id, periods_left: left }),
        ..v
    }
}

/// The ledger with the reserve of the plan on `id` back with its payer.
pub open spec fn plan_released(v: PalletView, id: ItemId) -> LedgerView {
    unreserved(v.ledger, v.orders[id].creator, v.orders[id].paid)
}

/// The store after the listed asset `id` was sold to `buyer`, who paid out
/// of the balances of `start`: the royalties and the seller's proceeds are
/// paid, the listing and any plan on the asset are closed, the deposits of
/// the listing and of the record go back to the seller, and `buyer` owns
/// the asset.
pub open spec fn sale_completed(v: PalletView, id: ItemId, buyer: AccountId, start: LedgerView) -> PalletView {
    let t = v.tokens[id];
    let sale = v.sales[id];
    let price = sale.price->Some_0;
    let paid = LedgerView {
        free: after_all(start.free, buyer, sale_payouts(t.royalty@, t.owner, price)),
        ..start
    };
    PalletView {
        tokens: v.tokens.insert(
            id,
            NonFungibleToken { owner: buyer, installment_account: None, deposit: 0, ..t },
        ),
        sales: v.sales.remove(id),
        orders: v.orders.remove(id),
        ledger: unreserved(unreserved(paid, t.owner, sale.deposit), t.owner, t.deposit),
        events: sold_events(v.events, t.owner, buyer, id, seller_proceeds(t.royalty@, t.owner, price) as Balance),
        ..v
    }
}

/// The store after the plan on `id` was completed: its payer's reserve came
/// back, and the payer bought the asset at its price.
pub open spec fn plan_completed(v: PalletView, id: ItemId) -> PalletView {
    sale_completed(v, id, v.orders[id].creator, plan_released(v, id))
}

/// The events of a sale appended to `events`: the payment, then the
/// change of owner.
pub open spec fn sold_events(
    events: Seq<Event>,
    seller: AccountId,
    buyer: AccountId,
    id: ItemId,
    proceeds: Balance,
) -> Seq<Event> {
    events.push(Event::Bought { seller, buyer, nft: id, price: proceeds }).push(
        Event::Transferred { from: seller, to: buyer, nft: id },
    )
}

/// Whether a plan opened at `created_at` has lapsed at `now`: more than
/// the installment window has passed.
pub open spec fn plan_lapsed(created_at: Moment, now: Moment) -> bool {
    now > created_at && now - created_at > INSTALLMENT_WINDOW
}

/// The store after the plan on `id` was closed unfinished: the payer's
/// reserve goes back to it, and the asset stays with its owner, listed but
/// no longer under installment.
pub open spec fn plan_dropped(v: PalletView, id: ItemId) -> PalletView {
    PalletView {
        tokens: v.tokens.insert(id, NonFungibleToken { installment_account: None, ..v.tokens[id] }),
        sales: v.sales.insert(id, Sale { in_installment: false, ..v.sales[id] }),
        orders: v.orders.remove(id),
        ledger: plan_released(v, id),
        ..v
    }
}

/// Whether a sweep at `now` over the assets that `keys` admits closes the
/// plan on `k`.
pub open spec fn swept(v: PalletView, now: Moment, keys: spec_fn(ItemId) -> bool, k: ItemId) -> bool {
    v.orders.contains_key(k) && plan_lapsed(v.orders[k].created_at, now) && keys(k)
}

/// Whether `w` is what a sweep at `now` over the assets that `keys` admits
/// makes of `v`: `w` holds the plans of `v` but those that it closed, whose
/// listings and assets are no longer under installment.
pub open spec fn sweep_result(
    v: PalletView,
    w: PalletView,
    now: Moment,
    keys: spec_fn(ItemId) -> bool,
) -> bool {
    &&& forall|k: ItemId| #[trigger]
        w.orders.contains_key(k) <==> v.orders.contains_key(k) && !swept(v, now, keys, k)
    &&& forall|k: ItemId| #[trigger] w.orders.contains_key(k) ==> w.orders[k] == v.orders[k]
    &&& w.sales.dom() == v.sales.dom()
    &&& forall|k: ItemId| #[trigger]
        w.sales.contains_key(k) ==> w.sales[k] == if swept(v, now, keys, k) {
            Sale { in_installment: false, ..v.sales[k] }
        } else {
            v.sales[k]
        }
    &&& w.tokens.dom() == v.tokens.dom()
    &&& forall|k: ItemId| #[trigger]
        w.tokens.contains_key(k) ==> w.tokens[k] == if swept(v, now, keys, k) {
            NonFungibleToken { installment_account: None, ..v.tokens[k] }
        } else {
            v.tokens[k]
        }
    &&& w.collections == v.collections
    &&& w.events == v.events
    &&& w.deposit_per_byte == v.deposit_per_byte
    &&& w.sale_deposit == v.sale_deposit
    &&& w.ledger.minimum == v.ledger.minimum
}

/// The ledger after the plans on `keys` of the store `v` were closed one
/// after the other, each payer's reserve coming back to it.
pub open spec fn plans_refunded(l: LedgerView, v: PalletView, keys: Seq<ItemId>) -> LedgerView
    decreases keys.len(),
{
    if keys.len() == 0 {
        l
    } else {
        let o = v.orders[keys.last()];
        unreserved(plans_refunded(l, v, keys.drop_last()), o.creator, o.paid)
    }
}

/// Whether `keys` lists, each once, exactly the identifiers that `chosen`
/// admits.
pub open spec fn lists_exactly(keys: Seq<ItemId>, chosen: spec_fn(ItemId) -> bool) -> bool {
    &&& keys.no_duplicates()
    &&& forall|k: ItemId| #[trigger] keys.contains(k) <==> chosen(k)
}

/// Whether a listing lapses at `now`: its time has passed.
pub open spec fn sale_lapsed(s: Sale, now: Moment) -> bool {
    s.expires_at < now
}

/// Whether a sweep at `now` over the assets that `keys` admits withdraws
/// the listing of `k`.
pub open spec fn withdrawn(v: PalletView, now: Moment, keys: spec_fn(ItemId) -> bool, k: ItemId) -> bool {
    v.sales.contains_key(k) && sale_lapsed(v.sales[k], now) && keys(k)
}

/// The store after the listing of `id` was withdrawn: a plan open on it is
/// closed first, as `clean_up_failed_installment` does, then the listing
/// goes and its deposit goes back to the lister.
pub open spec fn sale_retired(v: PalletView, id: ItemId) -> PalletView {
    let mid = if v.orders.contains_key(id) {
        plan_dropped(v, id)
    } else {
        v
    };
    PalletView {
        sales: mid.sales.remove(id),
        ledger: unreserved(mid.ledger, v.sales[id].owner, v.sales[id].deposit),
        ..mid
    }
}

/// The ledger after the listings on `keys` of the store `v` were withdrawn
/// one after the other: each plan's payer and each lister get back what
/// they hold in reserve for it.
pub open spec fn listings_refunded(l: LedgerView, v: PalletView, keys: Seq<ItemId>) -> LedgerView
    decreases keys.len(),
{
    if keys.len() == 0 {
        l
    } else {
        let k = keys.last();
        let before = listings_refunded(l, v, keys.drop_last());
        let released = if v.orders.contains_key(k) {
            unreserved(before, v.orders[k].creator, v.orders[k].paid)
        } else {
            before
        };
        unreserved(released, v.sales[k].owner, v.sales[k].deposit)
    }
}

/// Whether `w` is what a sweep of listings at `now` over the assets that
/// `keys` admits makes of `v`: the listings that it withdrew and the plans
/// on them are gone, those assets are no longer under installment, and the
/// rest but the balances stays as it was.
pub open spec fn sale_sweep_result(
    v: PalletView,
    w: PalletView,
    now: Moment,
    keys: spec_fn(ItemId) -> bool,
) -> bool {
    &&& forall|k: ItemId| #[trigger]
        w.sales.contains_key(k) <==> v.sales.contains_key(k) && !withdrawn(v, now, keys, k)
    &&& forall|k: ItemId| #[trigger] w.sales.contains_key(k) ==> w.sales[k] == v.sales[k]
    &&& forall|k: ItemId| #[trigger]
        w.orders.contains_key(k) <==> v.orders.contains_key(k) && !withdrawn(v, now, keys, k)
    &&& forall|k: ItemId| #[trigger] w.orders.contains_key(k) ==> w.orders[k] == v.orders[k]
    &&& w.tokens.dom() == v.tokens.dom()
    &&& forall|k: ItemId| #[trigger]
        w.tokens.contains_key(k) ==> w.tokens[k] == if withdrawn(v, now, keys, k)
            && v.orders.contains_key(k) {
            NonFungibleToken { installment_account: None, ..v.tokens[k] }
        } else {
            v.tokens[k]
        }
    &&& w.collections == v.collections
    &&& w.events == v.events
    &&& w.deposit_per_byte == v.deposit_per_byte
    &&& w.sale_deposit == v.sale_deposit
    &&& w.ledger.minimum == v.ledger.minimum
}

/// The store of the marketplace: collections, assets, listings and
/// installment plans, each keyed by the 128-bit identifier of an asset or
/// collection, and the balances that its operations move.
pub struct Pallet {
    collections: HashMap<ItemId, NFTCollection>,
    tokens: HashMap<ItemId, NonFungibleToken>,
    token_ids: Vec<ItemId>,
    sales: HashMap<ItemId, Sale>,
    orders: HashMap<ItemId, PayInstallmentOrder>,
    ledger: Ledger,
    deposit_per_byte: Balance,
    sale_deposit: Balance,
    events: Vec<Event>,
}

impl View for Pallet {
    type V = PalletView;

    closed spec fn view(&self) -> PalletView {
        PalletView {
            collections: self.collections@,
            tokens: self.tokens@,
            sales: self.sales@,
            orders: self.orders@,
            ledger: self.ledger@,
            deposit_per_byte: self.deposit_per_byte,
            sale_deposit: self.sale_deposit,
            events: self.events@,
        }
    }
}

fn bytes_len(d: &Option<Vec<u8>>) -> (r: u128)
    ensures
        r == opt_len(*d),
        r <= usize::MAX,
{
    match d {
        Some(v) => v.len() as u128,
        None => 0,
    }
}

fn deposit_for(per_byte: Balance, bytes: u128) -> (r: Balance)
    ensures
        r == capped_deposit(per_byte, bytes as int),
{
    match per_byte.checked_mul(bytes) {
        Some(v) => v,
        None => u128::MAX,
    }
}

/// Whether the percentages of `royalty` add up to at most a hundred.
pub fn royalty_within_bounds(royalty: &Vec<(AccountId, u8)>) -> (r: bool)
    ensures
        r == (percent_total(royalty@) <= 100),
{
    let mut sum: u64 = 0;
    let mut i: usize = 0;
    while i < royalty.len()
        invariant
            0 <= i <= royalty.len(),
            sum == percent_total(royalty@.take(i as int)),
            sum <= 100,
        decreases royalty.len() - i,
    {
        proof {
            assert(royalty@.take(i as int + 1).drop_last() == royalty@.take(i as int));
        }
        sum = sum + royalty[i].1 as u64;
        if sum > 100 {
            proof {
                crate::settlement::lemma_percent_prefix(royalty@, i as int + 1);
            }
            return false;
        }
        i = i + 1;
    }
    proof {
        assert(royalty@.take(i as int) == royalty@);
    }
    true
}

impl Pallet {
    /// The well-formedness of the store: its tables are consistent, and the
    /// list of asset identifiers names exactly the assets.
    pub closed spec fn wf(&self) -> bool {
        &&& consistent(self@)
        &&& forall|id: ItemId| #[trigger] self.tokens@.contains_key(id) <==> self.token_ids@.contains(id)
        &&& self.token_ids@.no_duplicates()
    }

    /// Draws a 128-bit identifier from a random seed and the position of the
    /// transaction (its index in the block and the block's number), so that
    /// several identifiers drawn in one block differ.
    pub fn gen_id(random: &[u8; 32], extrinsic_index: u32, block_number: u32) -> (r: ItemId)
        ensures
            r == id_of(random@, extrinsic_index, block_number),
    {
        let payload = encode_payload(random, extrinsic_index, block_number);
        let digest = blake2_128(&payload);
        from_le_bytes(&digest)
    }

    /// A well-formed store's tables are consistent.
    pub proof fn lemma_consistent(&self)
        requires
            self.wf(),
        ensures
            consistent(self@),
    {
    }

    /// An empty store whose assets and collections cost `deposit_per_byte`
    /// for each byte of their records, whose listings cost `sale_deposit`,
    /// and whose senders keep at least `minimum`.
    pub fn new(deposit_per_byte: Balance, sale_deposit: Balance, minimum: Balance) -> (r: Pallet)
        ensures
            r.wf(),
            r@.collections.is_empty(),
            r@.tokens.is_empty(),
            r@.sales.is_empty(),
            r@.orders.is_empty(),
            r@.ledger.free.is_empty(),
            r@.ledger.reserved.is_empty(),
            r@.ledger.minimum == minimum,
            r@.deposit_per_byte == deposit_per_byte,
            r@.sale_deposit == sale_deposit,
            r@.events.len() == 0,
    {
        Pallet {
            collections: HashMap::new(),
            tokens: HashMap::new(),
            token_ids: Vec::new(),
            sales: HashMap::new(),
            orders: HashMap::new(),
            ledger: Ledger::new(minimum),
            deposit_per_byte,
            sale_deposit,
            events: Vec::new(),
        }
    }

    /// Sets the free balance of `who`, as an endowment does.
    pub fn set_balance(&mut self, who: AccountId, amount: Balance)
        requires
            old(self).wf(),
        ensures
            final(self).wf(),
            final(self)@ == (PalletView {
                ledger: LedgerView { free: old(self)@.ledger.free.insert(who, amount), ..old(self)@.ledger },
                ..old(self)@
            }),
    {
        self.ledger.set_free_balance(who, amount);
    }

    /// The events of the operations so far, oldest first.
    pub fn events(&self) -> (r: &Vec<Event>)
        ensures
            r@ == self@.events,
    {
        &self.events
    }

    /// The free balance of `who`.
    pub fn free_balance(&self, who: AccountId) -> (r: Balance)
        ensures
            r == balance_in(self@.ledger.free, who),
    {
        self.ledger.free_balance(who)
    }

    /// The reserved balance of `who`.
    pub fn reserved_balance(&self, who: AccountId) -> (r: Balance)
        ensures
            r == balance_in(self@.ledger.reserved, who),
    {
        self.ledger.reserved_balance(who)
    }

    /// The collection under `id`.
    pub fn collection_by_id(&self, id: ItemId) -> (r: Option<&NFTCollection>)
        ensures
            r == (if self@.collections.contains_key(id) {
                Some(&self@.collections[id])
            } else {
                None
            }),
    {
        self.collections.get(&id)
    }

    /// Whether a collection exists under `id`.
    pub fn check_collection(&self, id: ItemId) -> (r: bool)
        ensures
            r == self@.collections.contains_key(id),
    {
        self.collections.contains_key(&id)
    }

    /// The asset under `id`.
    pub fn token_by_id(&self, id: ItemId) -> (r: Option<&NonFungibleToken>)
        ensures
            r == (if self@.tokens.contains_key(id) {
                Some(&self@.tokens[id])
            } else {
                None
            }),
    {
        self.tokens.get(&id)
    }

    /// The listing of the asset `id`.
    pub fn token_sale(&self, id: ItemId) -> (r: Option<Sale>)
        ensures
            r == (if self@.sales.contains_key(id) {
                Some(self@.sales[id])
            } else {
                None
            }),
    {
        match self.sales.get(&id) {
            Some(s) => Some(*s),
            None => None,
        }
    }

    /// The open installment plan on the asset `id`.
    pub fn order_by_id(&self, id: ItemId) -> (r: Option<PayInstallmentOrder>)
        ensures
            r == (if self@.orders.contains_key(id) {
                Some(self@.orders[id])
            } else {
                None
            }),
    {
        match self.orders.get(&id) {
            Some(o) => Some(*o),
            None => None,
        }
    }

    /// Where the asset `id` stands in its sale cycle.
    pub fn nft_status(&self, id: ItemId) -> (r: NftStatus)
        ensures
            r == status_of(self@, id),
    {
        match self.sales.get(&id) {
            None => NftStatus::Normal,
            Some(s) => if s.in_installment {
                NftStatus::PayingInstalment
            } else {
                NftStatus::Selling
            },
        }
    }

    /// Creates the collection `id` for `sender`, who reserves a deposit
    /// sized to the record.
    pub fn mint_collection(
        &mut self,
        sender: AccountId,
        id: ItemId,
        title: Vec<u8>,
        description: Option<Vec<u8>>,
    ) -> (r: Result<(), Error>)
        requires
            old(self).wf(),
        ensures
            final(self).wf(),
            ({
                let v = old(self)@;
                let deposit = capped_deposit(v.deposit_per_byte, collection_bytes(title@, description));
                &&& r == Err::<(), Error>(Error::DuplicateCollection) <==> v.collections.contains_key(id)
                &&& r is Ok <==> !v.collections.contains_key(id) && can_reserve(v.ledger, sender, deposit)
                &&& r is Ok ==> final(self)@ == (PalletView {
                    collections: v.collections.insert(
                        id,
                        NFTCollection { title, description, creator: sender, deposit },
                    ),
                    ledger: reserved_more(v.ledger, sender, deposit),
                    events: v.events.push(Event::CreatedCollection { collection: id, owner: sender }),
                    ..v
                })
                &&& r is Err ==> final(self)@ == v
            }),
    {
        if self.collections.contains_key(&id) {
            return Err(Error::DuplicateCollection);
        }
        let bytes = title.len() as u128 + bytes_len(&description) + 16;
        let deposit = deposit_for(self.deposit_per_byte, bytes);
        let reserved = self.ledger.reserve(sender, deposit);
        if let Err(e) = reserved {
            return Err(e);
        }
        self.collections.insert(id, NFTCollection { title, description, creator: sender, deposit });
        self.events.push(Event::CreatedCollection { collection: id, owner: sender });
        Ok(())
    }

    /// Creates a collection for `sender` under an identifier drawn from
    /// `random` and the transaction's position, and returns the identifier.
    pub fn create_collection(
        &mut self,
        sender: AccountId,
        random: &[u8; 32],
        extrinsic_index: u32,
        block_number: u32,
        title: Vec<u8>,
        description: Option<Vec<u8>>,
    ) -> (r: Result<ItemId, Error>)
        requires
            old(self).wf(),
        ensures
            final(self).wf(),
            ({
                let v = old(self)@;
                let id = id_of(random@, extrinsic_index, block_number) as ItemId;
                let deposit = capped_deposit(v.deposit_per_byte, collection_bytes(title@, description));
                &&& r == Err::<ItemId, Error>(Error::DuplicateCollection) <==> v.collections.contains_key(id)
                &&& r is Ok <==> !v.collections.contains_key(id) && can_reserve(v.ledger, sender, deposit)
                &&& r is Ok ==> r->Ok_0 == id && final(self)@ == (PalletView {
                    collections: v.collections.insert(
                        id,
                        NFTCollection { title, description, creator: sender, deposit },
                    ),
                    ledger: reserved_more(v.ledger, sender, deposit),
                    events: v.events.push(Event::CreatedCollection { collection: id, owner: sender }),
                    ..v
                })
                &&& r is Err ==> final(self)@ == v
            }),
    {
        let id = Pallet::gen_id(random, extrinsic_index, block_number);
        match self.mint_collection(sender, id, title, description) {
            Ok(()) => Ok(id),
            Err(e) => Err(e),
        }
    }

    /// Creates the asset `id`, owned by `sender`, in an existing collection;
    /// `sender` reserves a deposit sized to the record.
    pub fn mint(
        &mut self,
        sender: AccountId,
        id: ItemId,
        title: Vec<u8>,
        description: Option<Vec<u8>>,
        media: Vec<u8>,
        media_hash: Vec<u8>,
        installment_account: Option<AccountId>,
        royalty: Vec<(AccountId, u8)>,
        collection_id: ItemId,
    ) -> (r: Result<(), Error>)
        requires
            old(self).wf(),
        ensures
            final(self).wf(),
            ({
                let v = old(self)@;
                let deposit = capped_deposit(
                    v.deposit_per_byte,
                    token_bytes(title@, description, media@, media_hash@, royalty@),
                );
                &&& r == Err::<(), Error>(Error::DuplicateNFT) <==> v.tokens.contains_key(id)
                &&& !v.tokens.contains_key(id) ==> (r == Err::<(), Error>(Error::NoCollection)
                    <==> !v.collections.contains_key(collection_id))
                &&& !v.tokens.contains_key(id) && v.collections.contains_key(collection_id) ==> (r
                    == Err::<(), Error>(Error::RoyaltyTooHigh) <==> percent_total(royalty@) > 100)
                &&& r is Ok <==> !v.tokens.contains_key(id) && v.collections.contains_key(
                    collection_id,
                ) && percent_total(royalty@) <= 100 && can_reserve(v.ledger, sender, deposit)
                &&& r is Ok ==> final(self)@ == (PalletView {
                    tokens: v.tokens.insert(
                        id,
                        NonFungibleToken {
                            title,
                            description,
                            media,
                            media_hash,
                            creator: sender,
                            owner: sender,
                            installment_account,
                            royalty,
                            collection_id,
                            deposit,
                            burnt: false,
                        },
                    ),
                    ledger: reserved_more(v.ledger, sender, deposit),
                    events: v.events.push(Event::Created { nft: id, owner: sender }),
                    ..v
                })
                &&& r is Err ==> final(self)@ == v
            }),
    {
        if self.tokens.contains_key(&id) {
            return Err(Error::DuplicateNFT);
        }
        if !self.collections.contains_key(&collection_id) {
            return Err(Error::NoCollection);
        }
        if !royalty_within_bounds(&royalty) {
            return Err(Error::RoyaltyTooHigh);
        }
        let bytes = title.len() as u128 + bytes_len(&description) + media.len() as u128
            + media_hash.len() as u128 + 16 * (royalty.len() as u128) + 16 + 32;
        let deposit = deposit_for(self.deposit_per_byte, bytes);
        if let Err(e) = self.ledger.reserve(sender, deposit) {
            return Err(e);
        }
        let token = NonFungibleToken {
            title,
            description,
            media,
            media_hash,
            creator: sender,
            owner: sender,
            installment_account,
            royalty,
            collection_id,
            deposit,
            burnt: false,
        };
        self.tokens.insert(id, token);
        self.token_ids.push(id);
        self.events.push(Event::Created { nft: id, owner: sender });
        proof {
            assert forall|k: ItemId| #[trigger] self.tokens@.contains_key(k) <==> self.token_ids@.contains(k) by {
                if k != id {
                    if old(self).token_ids@.contains(k) {
                        let j = choose|j: int| 0 <= j < old(self).token_ids@.len() && old(self).token_ids@[j] == k;
                        assert(self.token_ids@[j] == k);
                    }
                    if self.token_ids@.contains(k) {
                        let j = choose|j: int| 0 <= j < self.token_ids@.len() && self.token_ids@[j] == k;
                        assert(old(self).token_ids@[j] == k);
                    }
                } else {
                    assert(self.token_ids@[self.token_ids@.len() - 1] == id);
                }
            }
            assert(!old(self).token_ids@.contains(id));
            assert forall|a: int, b: int|
                0 <= a < self.token_ids@.len() && 0 <= b < self.token_ids@.len() && a != b implies self.token_ids@[a]
                != self.token_ids@[b] by {
                if a < old(self).token_ids@.len() && b < old(self).token_ids@.len() {
                } else if a < old(self).token_ids@.len() {
                    assert(old(self).token_ids@[a] == self.token_ids@[a]);
                } else {
                    assert(old(self).token_ids@[b] == self.token_ids@[b]);
                }
            }
        }
        Ok(())
    }

    /// Creates an asset owned by `sender` under an identifier drawn from
    /// `random` and the transaction's position, and returns the identifier.
    pub fn mint_nft(
        &mut self,
        sender: AccountId,
        random: &[u8; 32],
        extrinsic_index: u32,
        block_number: u32,
        title: Vec<u8>,
        description: Option<Vec<u8>>,
        media: Vec<u8>,
        media_hash: Vec<u8>,
        installment_account: Option<AccountId>,
        royalty: Vec<(AccountId, u8)>,
        collection_id: ItemId,
    ) -> (r: Result<ItemId, Error>)
        requires
            old(self).wf(),
        ensures
            final(self).wf(),
            ({
                let v = old(self)@;
                let id = id_of(random@, extrinsic_index, block_number) as ItemId;
                let deposit = capped_deposit(
                    v.deposit_per_byte,
                    token_bytes(title@, description, media@, media_hash@, royalty@),
                );
                &&& r == Err::<ItemId, Error>(Error::DuplicateNFT) <==> v.tokens.contains_key(id)
                &&& !v.tokens.contains_key(id) ==> (r == Err::<ItemId, Error>(Error::NoCollection)
                    <==> !v.collections.contains_key(collection_id))
                &&& !v.tokens.contains_key(id) && v.collections.contains_key(collection_id) ==> (r
                    == Err::<ItemId, Error>(Error::RoyaltyTooHigh) <==> percent_total(royalty@) > 100)
                &&& r is Ok <==> !v.tokens.contains_key(id) && v.collections.contains_key(
                    collection_id,
                ) && percent_total(royalty@) <= 100 && can_reserve(v.ledger, sender, deposit)
                &&& r is Ok ==> r->Ok_0 == id && final(self)@ == (PalletView {
                    tokens: v.tokens.insert(
                        id,
                        NonFungibleToken {
                            title,
                            description,
                            media,
                            media_hash,
                            creator: sender,
                            owner: sender,
                            installment_account,
                            royalty,
                            collection_id,
                            deposit,
                            burnt: false,
                        },
                    ),
                    ledger: reserved_more(v.ledger, sender, deposit),
                    events: v.events.push(Event::Created { nft: id, owner: sender }),
                    ..v
                })
                &&& r is Err ==> final(self)@ == v
            }),
    {
        let id = Pallet::gen_id(random, extrinsic_index, block_number);
        match self.mint(
            sender,
            id,
            title,
            description,
            media,
            media_hash,
            installment_account,
            royalty,
            collection_id,
        ) {
            Ok(()) => Ok(id),
            Err(e) => Err(e),
        }
    }

    /// Whether a live asset belongs to the collection `id`.
    fn collection_has_tokens(&self, id: ItemId) -> (r: bool)
        requires
            self.wf(),
        ensures
            r == collection_in_use(self@, id),
    {
        let mut i: usize = 0;
        while i < self.token_ids.len()
            invariant
                self.wf(),
                0 <= i <= self.token_ids.len(),
                forall|j: int|
                    0 <= j < i ==> {
                        let k = #[trigger] self.token_ids@[j];
                        self.tokens@[k].burnt || self.tokens@[k].collection_id != id
                    },
            decreases self.token_ids.len() - i,
        {
            let k = self.token_ids[i];
            proof {
                assert(self.token_ids@.contains(k));
            }
            match self.tokens.get(&k) {
                Some(t) => {
                    if !t.burnt && t.collection_id == id {
                        return true;
                    }
                },
                None => {},
            }
            i = i + 1;
        }
        proof {
            assert forall|k: ItemId| #[trigger]
                self.tokens@.contains_key(k) implies self.tokens@[k].burnt
                || self.tokens@[k].collection_id != id by {
                assert(self.token_ids@.contains(k));
                let j = choose|j: int| 0 <= j < self.token_ids@.len() && self.token_ids@[j] == k;
                assert(self.token_ids@[j] == k);
            }
        }
        false
    }

    /// Removes the collection `id` of `sender` when no live asset belongs to
    /// it, and returns its deposit.
    pub fn destroy_collection(&mut self, sender: AccountId, id: ItemId) -> (r: Result<(), Error>)
        requires
            old(self).wf(),
        ensures
            final(self).wf(),
            ({
                let v = old(self)@;
                &&& r == Err::<(), Error>(Error::NoCollection) <==> !v.collections.contains_key(id)
                &&& v.collections.contains_key(id) ==> (r == Err::<(), Error>(Error::TokenInCollection)
                    <==> collection_in_use(v, id))
                &&& v.collections.contains_key(id) && !collection_in_use(v, id) ==> (r == Err::<
                    (),
                    Error,
                >(Error::NotOwner) <==> v.collections[id].creator != sender)
                &&& r is Ok <==> v.collections.contains_key(id) && !collection_in_use(v, id)
                    && v.collections[id].creator == sender
                &&& r is Ok ==> final(self)@ == (PalletView {
                    collections: v.collections.remove(id),
                    ledger: unreserved(v.ledger, sender, v.collections[id].deposit),
                    events: v.events.push(Event::DestroyCollection { collection: id }),
                    ..v
                })
                &&& r is Err ==> final(self)@ == v
            }),
    {
        if !self.collections.contains_key(&id) {
            return Err(Error::NoCollection);
        }
        if self.collection_has_tokens(id) {
            return Err(Error::TokenInCollection);
        }
        let deposit = match self.collections.get(&id) {
            None => {
                return Err(Error::NoCollection);
            },
            Some(c) => {
                if c.creator != sender {
                    return Err(Error::NotOwner);
                }
                c.deposit
            },
        };
        self.ledger.unreserve(sender, deposit);
        self.collections.remove(&id);
        self.events.push(Event::DestroyCollection { collection: id });
        Ok(())
    }

    /// Replaces the title (where one is given) and the description of the
    /// collection `id` of `sender`, whose deposit is sized to the new record.
    pub fn edit_collection(
        &mut self,
        sender: AccountId,
        id: ItemId,
        title: Option<Vec<u8>>,
        description: Option<Vec<u8>>,
    ) -> (r: Result<(), Error>)
        requires
            old(self).wf(),
        ensures
            final(self).wf(),
            ({
                let v = old(self)@;
                let c = v.collections[id];
                let new_title = match title {
                    Some(t) => t,
                    None => c.title,
                };
                let deposit = capped_deposit(v.deposit_per_byte, collection_bytes(new_title@, description));
                let released = unreserved(v.ledger, sender, c.deposit);
                &&& r == Err::<(), Error>(Error::NoCollection) <==> !v.collections.contains_key(id)
                &&& v.collections.contains_key(id) ==> (r == Err::<(), Error>(Error::NotOwner)
                    <==> c.creator != sender)
                &&& r is Ok <==> v.collections.contains_key(id) && c.creator == sender && can_reserve(
                    released,
                    sender,
                    deposit,
                )
                &&& r is Ok ==> final(self)@ == (PalletView {
                    collections: v.collections.insert(
                        id,
                        NFTCollection { title: new_title, description, creator: sender, deposit },
                    ),
                    ledger: reserved_more(released, sender, deposit),
                    events: v.events.push(Event::EditedCollection { collection: id, owner: sender }),
                    ..v
                })
                &&& r is Err ==> final(self)@ == v
            }),
    {
        let (old_deposit, title_len) = match self.collections.get(&id) {
            None => {
                return Err(Error::NoCollection);
            },
            Some(c) => {
                if c.creator != sender {
                    return Err(Error::NotOwner);
                }
                let title_len = match &title {
                    Some(t) => t.len(),
                    None => c.title.len(),
                };
                (c.deposit, title_len)
            },
        };
        let bytes = title_len as u128 + bytes_len(&description) + 16;
        let deposit = deposit_for(self.deposit_per_byte, bytes);
        let mut ledger = self.ledger.duplicate();
        ledger.unreserve(sender, old_deposit);
        if let Err(e) = ledger.reserve(sender, deposit) {
            return Err(e);
        }
        self.ledger = ledger;
        let ghost before = self.collections@;
        if let Some(c) = self.collections.remove(&id) {
            let new_title = match title {
                Some(t) => t,
                None => c.title,
            };
            self.collections.insert(
                id,
                NFTCollection { title: new_title, description, creator: sender, deposit },
            );
            proof {
                assert(self.collections@ == before.insert(id, self.collections@[id]));
            }
        }
        self.events.push(Event::EditedCollection { collection: id, owner: sender });
        Ok(())
    }

    /// Replaces the fields of the asset `id` of `sender`, whose deposit is
    /// sized to the new record.
    pub fn edit_nft(
        &mut self,
        sender: AccountId,
        id: ItemId,
        title: Vec<u8>,
        description: Option<Vec<u8>>,
        media: Vec<u8>,
        media_hash: Vec<u8>,
        installment_account: Option<AccountId>,
        royalty: Vec<(AccountId, u8)>,
        collection_id: ItemId,
    ) -> (r: Result<(), Error>)
        requires
            old(self).wf(),
        ensures
            final(self).wf(),
            ({
                let v = old(self)@;
                let t = v.tokens[id];
                let deposit = capped_deposit(
                    v.deposit_per_byte,
                    token_bytes(title@, description, media@, media_hash@, royalty@),
                );
                let released = unreserved(v.ledger, sender, t.deposit);
                &&& r == Err::<(), Error>(Error::NoNFT) <==> !v.tokens.contains_key(id)
                &&& v.tokens.contains_key(id) ==> (r == Err::<(), Error>(Error::NotOwner) <==> t.owner
                    != sender)
                &&& v.tokens.contains_key(id) && t.owner == sender ==> (r == Err::<(), Error>(
                    Error::BurntNFT,
                ) <==> t.burnt)
                &&& r is Ok <==> v.tokens.contains_key(id) && t.owner == sender && !t.burnt
                    && v.collections.contains_key(collection_id) && percent_total(royalty@) <= 100
                    && can_reserve(released, sender, deposit)
                &&& r is Ok ==> final(self)@ == (PalletView {
                    tokens: v.tokens.insert(
                        id,
                        NonFungibleToken {
                            title,
                            description,
                            media,
                            media_hash,
                            creator: t.creator,
                            owner: sender,
                            installment_account,
                            royalty,
                            collection_id,
                            deposit,
                            burnt: false,
                        },
                    ),
                    ledger: reserved_more(released, sender, deposit),
                    events: v.events.push(Event::Edited { nft: id, owner: sender }),
                    ..v
                })
                &&& r is Err ==> final(self)@ == v
            }),
    {
        let (creator, old_deposit) = match self.tokens.get(&id) {
            None => {
                return Err(Error::NoNFT);
            },
            Some(t) => {
                if t.owner != sender {
                    return Err(Error::NotOwner);
                }
                if t.burnt {
                    return Err(Error::BurntNFT);
                }
                (t.creator, t.deposit)
            },
        };
        if !self.collections.contains_key(&collection_id) {
            return Err(Error::NoCollection);
        }
        if !royalty_within_bounds(&royalty) {
            return Err(Error::RoyaltyTooHigh);
        }
        let bytes = title.len() as u128 + bytes_len(&description) + media.len() as u128
            + media_hash.len() as u128 + 16 * (royalty.len() as u128) + 16 + 32;
        let deposit = deposit_for(self.deposit_per_byte, bytes);
        let mut ledger = self.ledger.duplicate();
        ledger.unreserve(sender, old_deposit);
        if let Err(e) = ledger.reserve(sender, deposit) {
            return Err(e);
        }
        self.ledger = ledger;
        let token = NonFungibleToken {
            title,
            description,
            media,
            media_hash,
            creator,
            owner: sender,
            installment_account,
            royalty,
            collection_id,
            deposit,
            burnt: false,
        };
        self.tokens.insert(id, token);
        self.events.push(Event::Edited { nft: id, owner: sender });
        Ok(())
    }

    /// Burns the asset `id` of `sender`: its deposit and that of its
    /// listing go back to `sender`, the listing is withdrawn, and the record
    /// stays, marked burnt. An asset under installment cannot be burnt.
    pub fn burn_nft(&mut self, sender: AccountId, id: ItemId) -> (r: Result<(), Error>)
        requires
            old(self).wf(),
        ensures
            final(self).wf(),
            ({
                let v = old(self)@;
                let t = v.tokens[id];
                let released = unreserved(v.ledger, sender, t.deposit);
                &&& r == Err::<(), Error>(Error::NoNFT) <==> !v.tokens.contains_key(id)
                &&& v.tokens.contains_key(id) ==> (r == Err::<(), Error>(Error::NotOwner) <==> t.owner
                    != sender)
                &&& v.tokens.contains_key(id) && t.owner == sender ==> (r == Err::<(), Error>(
                    Error::BurntNFT,
                ) <==> t.burnt)
                &&& v.tokens.contains_key(id) && t.owner == sender && !t.burnt ==> (r == Err::<
                    (),
                    Error,
                >(Error::NFTInInstallment) <==> v.sales.contains_key(id) && v.sales[id].in_installment)
                &&& r is Ok <==> v.tokens.contains_key(id) && t.owner == sender && !t.burnt && !(
                v.sales.contains_key(id) && v.sales[id].in_installment)
                &&& r is Ok ==> final(self)@ == (PalletView {
                    tokens: v.tokens.insert(id, NonFungibleToken { deposit: 0, burnt: true, ..t }),
                    sales: v.sales.remove(id),
                    ledger: if v.sales.contains_key(id) {
                        unreserved(released, sender, v.sales[id].deposit)
                    } else {
                        released
                    },
                    events: v.events.push(Event::BurntNFT { nft: id }),
                    ..v
                })
                &&& r is Err ==> final(self)@ == v
            }),
    {
        let deposit = match self.tokens.get(&id) {
            None => {
                return Err(Error::NoNFT);
            },
            Some(t) => {
                if t.owner != sender {
                    return Err(Error::NotOwner);
                }
                if t.burnt {
                    return Err(Error::BurntNFT);
                }
                t.deposit
            },
        };
        let listing = match self.sales.get(&id) {
            Some(s) => {
                if s.in_installment {
                    return Err(Error::NFTInInstallment);
                }
                Some(s.deposit)
            },
            None => None,
        };
        self.ledger.unreserve(sender, deposit);
        if let Some(d) = listing {
            self.ledger.unreserve(sender, d);
        }
        self.sales.remove(&id);
        let ghost before = self.tokens@;
        if let Some(mut t) = self.tokens.remove(&id) {
            t.deposit = 0;
            t.burnt = true;
            self.tokens.insert(id, t);
            proof {
                assert(self.tokens@ == before.insert(id, self.tokens@[id]));
            }
        }
        self.events.push(Event::BurntNFT { nft: id });
        Ok(())
    }

    /// Lists the asset `id` of `sender` at `price` (none: listed but
    /// unpriced) until `expires_at`; `sender` reserves the listing deposit.
    /// An asset that is already listed keeps its listing, whoever calls: the
    /// call only reports the listing, and a new price takes `set_nft_price`.
    pub fn set_sale_nft(
        &mut self,
        sender: AccountId,
        id: ItemId,
        price: Option<Balance>,
        expires_at: Moment,
    ) -> (r: Result<(), Error>)
        requires
            old(self).wf(),
        ensures
            final(self).wf(),
            ({
                let v = old(self)@;
                let t = v.tokens[id];
                &&& r == Err::<(), Error>(Error::NoNFT) <==> !v.tokens.contains_key(id) || t.burnt
                &&& v.tokens.contains_key(id) && !t.burnt && !v.sales.contains_key(id) ==> (r == Err::<
                    (),
                    Error,
                >(Error::NotOwner) <==> t.owner != sender)
                &&& r is Ok <==> v.tokens.contains_key(id) && !t.burnt && (v.sales.contains_key(id) || (
                t.owner == sender && can_reserve(v.ledger, sender, v.sale_deposit)))
                &&& v.tokens.contains_key(id) && v.sales.contains_key(id) ==> r is Ok && final(self)@ == (PalletView {
                    events: v.events.push(Event::NFTOnSale { nft: id, price: v.sales[id].price }),
                    ..v
                })
                &&& r is Ok && !v.sales.contains_key(id) ==> final(self)@ == (PalletView {
                    sales: v.sales.insert(
                        id,
                        Sale {
                            owner: sender,
                            price,
                            in_installment: false,
                            deposit: v.sale_deposit,
                            expires_at,
                        },
                    ),
                    ledger: reserved_more(v.ledger, sender, v.sale_deposit),
                    events: v.events.push(Event::SetSaleNFT { nft: id, price }),
                    ..v
                })
                &&& r is Err ==> final(self)@ == v
            }),
    {
        match self.tokens.get(&id) {
            None => {
                return Err(Error::NoNFT);
            },
            Some(t) => {
                if t.burnt {
                    return Err(Error::NoNFT);
                }
            },
        }
        if let Some(s) = self.sales.get(&id) {
            let listed = s.price;
            self.events.push(Event::NFTOnSale { nft: id, price: listed });
            return Ok(());
        }
        match self.tokens.get(&id) {
            Some(t) => {
                if t.owner != sender {
                    return Err(Error::NotOwner);
                }
            },
            None => {
                return Err(Error::NoNFT);
            },
        }
        let deposit = self.sale_deposit;
        if let Err(e) = self.ledger.reserve(sender, deposit) {
            return Err(e);
        }
        self.sales.insert(
            id,
            Sale { owner: sender, price, in_installment: false, deposit, expires_at },
        );
        self.events.push(Event::SetSaleNFT { nft: id, price });
        Ok(())
    }

    /// Sets the price of the listed asset `id` of `sender`; a listing under
    /// installment keeps its price.
    pub fn set_nft_price(&mut self, sender: AccountId, id: ItemId, price: Option<Balance>) -> (r:
        Result<(), Error>)
        requires
            old(self).wf(),
        ensures
            final(self).wf(),
            ({
                let v = old(self)@;
                let t = v.tokens[id];
                &&& r == Err::<(), Error>(Error::NoNFT) <==> !v.tokens.contains_key(id)
                &&& v.tokens.contains_key(id) ==> (r == Err::<(), Error>(Error::NotOwner) <==> t.owner
                    != sender)
                &&& v.tokens.contains_key(id) && t.owner == sender ==> (r == Err::<(), Error>(
                    Error::NoListing,
                ) <==> !v.sales.contains_key(id))
                &&& r is Ok <==> v.tokens.contains_key(id) && t.owner == sender && v.sales.contains_key(
                    id,
                ) && !v.sales[id].in_installment
                &&& r is Ok ==> final(self)@ == (PalletView {
                    sales: v.sales.insert(id, Sale { price, ..v.sales[id] }),
                    events: v.events.push(Event::PriceSet { nft: id, price }),
                    ..v
                })
                &&& r is Err ==> final(self)@ == v
            }),
    {
        match self.tokens.get(&id) {
            None => {
                return Err(Error::NoNFT);
            },
            Some(t) => {
                if t.owner != sender {
                    return Err(Error::NotOwner);
                }
            },
        }
        let sale = match self.sales.get(&id) {
            None => {
                return Err(Error::NoListing);
            },
            Some(s) => *s,
        };
        if sale.in_installment {
            return Err(Error::NFTInInstallment);
        }
        self.sales.insert(id, Sale { price, ..sale });
        self.events.push(Event::PriceSet { nft: id, price });
        Ok(())
    }

    /// Completes the sale of the listed asset `id` to `buyer`, who pays out
    /// of the balances of `ledger`: the royalties and the seller's proceeds
    /// are paid, the listing and any plan on the asset are closed, the
    /// deposits of the listing and of the record go back to the seller, and
    /// `buyer` owns the asset. Returns what the seller received.
    fn finish_sale(&mut self, id: ItemId, buyer: AccountId, ledger: Ledger) -> (r: Result<
        Balance,
        Error,
    >)
        requires
            old(self).wf(),
            old(self)@.sales.contains_key(id),
            old(self)@.sales[id].price is Some,
        ensures
            final(self).wf(),
            final(self).token_ids == old(self).token_ids,
            ({
                let v = old(self)@;
                let t = v.tokens[id];
                let price = v.sales[id].price->Some_0;
                &&& r is Ok <==> can_pay_all(
                    ledger@.free,
                    ledger@.minimum,
                    buyer,
                    sale_payouts(t.royalty@, t.owner, price),
                )
                &&& r is Ok ==> r->Ok_0 == seller_proceeds(t.royalty@, t.owner, price)
                    && payout_total(sale_payouts(t.royalty@, t.owner, price)) == price
                    && final(self)@ == sale_completed(v, id, buyer, ledger@)
                &&& r is Err ==> final(self)@ == v
                &&& r is Err ==> r == Err::<Balance, Error>(Error::InsufficientBalance) || r == Err::<
                    Balance,
                    Error,
                >(Error::Overflow)
            }),
    {
        let mut ledger = ledger;
        let sale = match self.sales.get(&id) {
            None => {
                return Err(Error::NotSelling);
            },
            Some(s) => *s,
        };
        let price = match sale.price {
            None => {
                return Err(Error::NotSelling);
            },
            Some(p) => p,
        };
        let (seller, token_deposit, proceeds) = match self.tokens.get(&id) {
            None => {
                return Err(Error::NoNFT);
            },
            Some(t) => {
                proof {
                    assert(percent_total(t.royalty@) <= 100);
                    lemma_sale_pays_price(t.royalty@, t.owner, price);
                }
                match settle(&mut ledger, buyer, t.owner, price, &t.royalty) {
                    Ok(p) => (t.owner, t.deposit, p),
                    Err(e) => {
                        return Err(e);
                    },
                }
            },
        };
        ledger.unreserve(seller, sale.deposit);
        ledger.unreserve(seller, token_deposit);
        self.ledger = ledger;
        self.sales.remove(&id);
        self.orders.remove(&id);
        let ghost before = self.tokens@;
        if let Some(mut t) = self.tokens.remove(&id) {
            t.owner = buyer;
            t.installment_account = None;
            t.deposit = 0;
            self.tokens.insert(id, t);
            proof {
                assert(self.tokens@ == before.insert(id, self.tokens@[id]));
            }
        }
        self.events.push(Event::Bought { seller, buyer, nft: id, price: proceeds });
        self.events.push(Event::Transferred { from: seller, to: buyer, nft: id });
        proof {
            assert forall|k: ItemId| #[trigger] self@.orders.contains_key(k) implies self@.sales.contains_key(k)
                && self@.sales[k].in_installment && self@.sales[k].price is Some
                && self@.orders[k].nft_id == k by {
                assert(old(self)@.orders.contains_key(k));
            }
        }
        Ok(proceeds)
    }

    /// Sells the listed asset `id` to `buyer` at its price: the royalties
    /// and the seller's proceeds, which add up to the price, are paid; the
    /// listing is withdrawn, the deposits of the listing and of the record
    /// go back to the seller, and `buyer` owns the asset. Returns what the
    /// seller received.
    pub fn do_transfer(&mut self, id: ItemId, buyer: AccountId) -> (r: Result<Balance, Error>)
        requires
            old(self).wf(),
        ensures
            final(self).wf(),
            ({
                let v = old(self)@;
                let t = v.tokens[id];
                let sale = v.sales[id];
                let price = sale.price->Some_0;
                let seller = t.owner;
                let listed = v.sales.contains_key(id) && sale.price is Some;
                &&& r == Err::<Balance, Error>(Error::NoNFT) <==> !v.tokens.contains_key(id)
                &&& v.tokens.contains_key(id) ==> (r == Err::<Balance, Error>(Error::NotSelling)
                    <==> !listed)
                &&& v.tokens.contains_key(id) && listed ==> (r == Err::<Balance, Error>(
                    Error::NFTInInstallment,
                ) <==> sale.in_installment)
                &&& v.tokens.contains_key(id) && listed && !sale.in_installment ==> (r == Err::<
                    Balance,
                    Error,
                >(Error::TransferToSelf) <==> seller == buyer)
                &&& r is Ok <==> v.tokens.contains_key(id) && listed && !sale.in_installment && seller
                    != buyer && can_pay_all(
                    v.ledger.free,
                    v.ledger.minimum,
                    buyer,
                    sale_payouts(t.royalty@, seller, price),
                )
                &&& r is Ok ==> r->Ok_0 == seller_proceeds(t.royalty@, seller, price)
                    && payout_total(sale_payouts(t.royalty@, seller, price)) == price
                    && final(self)@ == sale_completed(v, id, buyer, v.ledger)
                &&& r is Err ==> final(self)@ == v
            }),
    {
        let seller = match self.tokens.get(&id) {
            None => {
                return Err(Error::NoNFT);
            },
            Some(t) => t.owner,
        };
        let sale = match self.sales.get(&id) {
            None => {
                return Err(Error::NotSelling);
            },
            Some(s) => *s,
        };
        if sale.price.is_none() {
            return Err(Error::NotSelling);
        }
        if sale.in_installment {
            return Err(Error::NFTInInstallment);
        }
        if seller == buyer {
            return Err(Error::TransferToSelf);
        }
        let ledger = self.ledger.duplicate();
        self.finish_sale(id, buyer, ledger)
    }

    /// `buyer` buys the listed asset `id` at its price; see `do_transfer`.
    pub fn buy_nft(&mut self, buyer: AccountId, id: ItemId) -> (r: Result<Balance, Error>)
        requires
            old(self).wf(),
        ensures
            final(self).wf(),
            ({
                let v = old(self)@;
                let t = v.tokens[id];
                let sale = v.sales[id];
                let price = sale.price->Some_0;
                let seller = t.owner;
                let listed = v.sales.contains_key(id) && sale.price is Some;
                &&& r == Err::<Balance, Error>(Error::NoNFT) <==> !v.tokens.contains_key(id)
                &&& v.tokens.contains_key(id) ==> (r == Err::<Balance, Error>(Error::NotSelling)
                    <==> !listed)
                &&& v.tokens.contains_key(id) && listed ==> (r == Err::<Balance, Error>(
                    Error::NFTInInstallment,
                ) <==> sale.in_installment)
                &&& v.tokens.contains_key(id) && listed && !sale.in_installment ==> (r == Err::<
                    Balance,
                    Error,
                >(Error::TransferToSelf) <==> seller == buyer)
                &&& r is Ok <==> v.tokens.contains_key(id) && listed && !sale.in_installment && seller
                    != buyer && can_pay_all(
                    v.ledger.free,
                    v.ledger.minimum,
                    buyer,
                    sale_payouts(t.royalty@, seller, price),
                )
                &&& r is Ok ==> r->Ok_0 == seller_proceeds(t.royalty@, seller, price)
                    && payout_total(sale_payouts(t.royalty@, seller, price)) == price
                    && final(self)@ == sale_completed(v, id, buyer, v.ledger)
                &&& r is Err ==> final(self)@ == v
            }),
    {
        self.do_transfer(id, buyer)
    }

    /// `payer` pays `amount` towards the listed asset `id`, declaring
    /// `periods` installments (one to six). The first payment opens a plan,
    /// unless it reaches the price; the payments are held in reserve. A
    /// later payment by the same payer must reach the next amount due,
    /// unless it brings the total to the price. A payment that reaches the
    /// price completes the sale in the same call: the reserve comes back,
    /// the payer pays the price as in an outright sale (what it paid beyond
    /// the price stays with it), the plan closes and the payer owns the
    /// asset.
    pub fn pay_installment(
        &mut self,
        payer: AccountId,
        id: ItemId,
        periods: u8,
        amount: Balance,
        now: Moment,
    ) -> (r: Result<(), Error>)
        requires
            old(self).wf(),
        ensures
            final(self).wf(),
            ({
                let v = old(self)@;
                let t = v.tokens[id];
                let sale = v.sales[id];
                let price = sale.price->Some_0;
                let o = v.orders[id];
                let valid = 1 <= periods <= MAX_PERIODS;
                let priced = v.sales.contains_key(id) && sale.price is Some;
                let open = valid && v.tokens.contains_key(id) && priced && v.orders.contains_key(id)
                    && o.creator == payer;
                &&& r == Err::<(), Error>(Error::FromOneToSixMonths) <==> !valid
                &&& valid ==> (r == Err::<(), Error>(Error::NoNFT) <==> !v.tokens.contains_key(id))
                &&& valid && v.tokens.contains_key(id) ==> (r == Err::<(), Error>(Error::NotSelling)
                    <==> !priced)
                &&& valid && v.tokens.contains_key(id) && priced && !v.orders.contains_key(id) ==> {
                    &&& r == Err::<(), Error>(Error::TransferToSelf) <==> payer == t.owner
                    &&& amount < price ==> (r is Ok <==> payer != t.owner && can_reserve(
                        v.ledger,
                        payer,
                        amount,
                    ))
                    &&& amount < price && r is Ok ==> final(self)@ == plan_opened(
                        v,
                        id,
                        payer,
                        periods,
                        amount,
                        now,
                    )
                    &&& amount >= price ==> (r is Ok <==> payer != t.owner && can_pay_all(
                        v.ledger.free,
                        v.ledger.minimum,
                        payer,
                        sale_payouts(t.royalty@, t.owner, price),
                    ))
                    &&& amount >= price && r is Ok ==> final(self)@ == sale_completed(
                        v,
                        id,
                        payer,
                        v.ledger,
                    ) && payout_total(sale_payouts(t.royalty@, t.owner, price)) == price
                }
                &&& valid && v.tokens.contains_key(id) && priced && v.orders.contains_key(id) ==> (r
                    == Err::<(), Error>(Error::NoOrder) <==> o.creator != payer)
                &&& open && o.paid + amount > u128::MAX ==> r == Err::<(), Error>(Error::Overflow)
                &&& open && price <= o.paid + amount <= u128::MAX ==> {
                    &&& r is Ok <==> can_pay_all(
                        plan_released(v, id).free,
                        v.ledger.minimum,
                        payer,
                        sale_payouts(t.royalty@, t.owner, price),
                    )
                    &&& r is Ok ==> final(self)@ == plan_completed(v, id) && payout_total(
                        sale_payouts(t.royalty@, t.owner, price),
                    ) == price
                }
                &&& open && o.paid + amount < price ==> {
                    &&& r == Err::<(), Error>(Error::InsufficientDeposit) <==> amount
                        < o.next_pay_amount
                    &&& r is Ok <==> amount >= o.next_pay_amount && can_reserve(v.ledger, payer, amount)
                    &&& r is Ok ==> final(self)@ == plan_advanced(v, id, amount, now)
                }
                &&& r is Err ==> final(self)@ == v
            }),
    {
        if periods == 0 || periods > MAX_PERIODS {
            return Err(Error::FromOneToSixMonths);
        }
        let seller = match self.tokens.get(&id) {
            None => {
                return Err(Error::NoNFT);
            },
            Some(t) => t.owner,
        };
        let sale = match self.sales.get(&id) {
            None => {
                return Err(Error::NotSelling);
            },
            Some(s) => *s,
        };
        let price = match sale.price {
            None => {
                return Err(Error::NotSelling);
            },
            Some(p) => p,
        };
        let order = match self.orders.get(&id) {
            None => {
                if payer == seller {
                    return Err(Error::TransferToSelf);
                }
                if amount >= price {
                    let ledger = self.ledger.duplicate();
                    return match self.finish_sale(id, payer, ledger) {
                        Ok(_) => Ok(()),
                        Err(e) => Err(e),
                    };
                }
                if let Err(e) = self.ledger.reserve(payer, amount) {
                    return Err(e);
                }
                let left = periods - 1;
                let remaining = if amount >= price { 0 } else { price - amount };
                self.orders.insert(
                    id,
                    PayInstallmentOrder {
                        creator: payer,
                        created_at: now,
                        paid: amount,
                        periods_left: left,
                        next_pay_amount: Pallet::calc_next_pay_amount(remaining, left),
                        last_paid_at: now,
                        nft_id: id,
                    },
                );
                self.sales.insert(id, Sale { in_installment: true, ..sale });
                let ghost before = self.tokens@;
                if let Some(mut t) = self.tokens.remove(&id) {
                    t.installment_account = Some(payer);
                    self.tokens.insert(id, t);
                    proof {
                        assert(self.tokens@ == before.insert(id, self.tokens@[id]));
                    }
                }
                self.events.push(Event::Paid { nft_id: id, periods_left: left });
                proof {
                    assert forall|k: ItemId| #[trigger] self@.orders.contains_key(k) implies self@.sales.contains_key(k) && self@.sales[k].in_installment && self@.sales[k].price is Some by {
                        if k != id {
                            assert(old(self)@.orders.contains_key(k));
                        }
                    }
                }
                return Ok(());
            },
            Some(o) => *o,
        };
        if order.creator != payer {
            return Err(Error::NoOrder);
        }
        let paid = match order.paid.checked_add(amount) {
            None => {
                return Err(Error::Overflow);
            },
            Some(p) => p,
        };
        if paid >= price {
            let mut ledger = self.ledger.duplicate();
            ledger.unreserve(payer, order.paid);
            return match self.finish_sale(id, payer, ledger) {
                Ok(_) => Ok(()),
                Err(e) => Err(e),
            };
        }
        if amount < order.next_pay_amount {
            return Err(Error::InsufficientDeposit);
        }
        if let Err(e) = self.ledger.reserve(payer, amount) {
            return Err(e);
        }
        let left = if order.periods_left > 0 { order.periods_left - 1 } else { 0 };
        self.orders.insert(
            id,
            PayInstallmentOrder {
                paid,
                periods_left: left,
                next_pay_amount: Pallet::calc_next_pay_amount(price - paid, left),
                last_paid_at: now,
                ..order
            },
        );
        self.events.push(Event::Paid { nft_id: id, periods_left: left });
        Ok(())
    }

    /// Closes the plan on `id` unfinished: the payer's reserve goes back to
    /// it, and the asset stays with its owner, listed but no longer under
    /// installment. Without a plan on `id` nothing changes.
    pub fn clean_up_failed_installment(&mut self, id: ItemId)
        requires
            old(self).wf(),
        ensures
            final(self).wf(),
            final(self)@ == if old(self)@.orders.contains_key(id) {
                plan_dropped(old(self)@, id)
            } else {
                old(self)@
            },
    {
        self.drop_plan(id);
    }

    fn drop_plan(&mut self, id: ItemId)
        requires
            old(self).wf(),
        ensures
            final(self).wf(),
            final(self).token_ids == old(self).token_ids,
            final(self)@ == if old(self)@.orders.contains_key(id) {
                plan_dropped(old(self)@, id)
            } else {
                old(self)@
            },
    {
        if !self.orders.contains_key(&id) {
            return;
        }
        let order = match self.orders.remove(&id) {
            None => {
                return;
            },
            Some(o) => o,
        };
        self.ledger.unreserve(order.creator, order.paid);
        proof {
            assert(old(self)@.orders.contains_key(id));
            assert(self.sales@.contains_key(id));
        }
        let sale = match self.sales.get(&id) {
            Some(s) => *s,
            None => {
                return;
            },
        };
        self.sales.insert(id, Sale { in_installment: false, ..sale });
        let ghost before = self.tokens@;
        if let Some(mut t) = self.tokens.remove(&id) {
            t.installment_account = None;
            self.tokens.insert(id, t);
            proof {
                assert(self.tokens@ == before.insert(id, self.tokens@[id]));
            }
        }
        proof {
            assert forall|k: ItemId| #[trigger] self@.orders.contains_key(k) implies self@.sales.contains_key(k)
                && self@.sales[k].in_installment && self@.sales[k].price is Some
                && self@.orders[k].nft_id == k by {
                assert(old(self)@.orders.contains_key(k));
            }
        }
    }

    /// Closes, as `clean_up_failed_installment` does, every plan that has
    /// lapsed at `now`; the others stay as they were.
    pub fn check_installment_orders(&mut self, now: Moment)
        requires
            old(self).wf(),
        ensures
            final(self).wf(),
            sweep_result(old(self)@, final(self)@, now, |k: ItemId| true),
            exists|keys: Seq<ItemId>|
                lists_exactly(keys, |k: ItemId| swept(old(self)@, now, |j: ItemId| true, k))
                    && final(self)@.ledger == plans_refunded(old(self)@.ledger, old(self)@, keys),
    {
        let ghost v = self@;
        let ghost ids = self.token_ids@;
        let ghost mut done: Seq<ItemId> = Seq::empty();
        let mut i: usize = 0;
        while i < self.token_ids.len()
            invariant
                self.wf(),
                self.token_ids@ == ids,
                0 <= i <= ids.len(),
                forall|k: ItemId| #[trigger] v.tokens.contains_key(k) <==> ids.contains(k),
                sweep_result(v, self@, now, |k: ItemId| ids.take(i as int).contains(k)),
                lists_exactly(done, |k: ItemId| swept(v, now, |j: ItemId| ids.take(i as int).contains(j), k)),
                self@.ledger == plans_refunded(v.ledger, v, done),
            decreases ids.len() - i,
        {
            let k = self.token_ids[i];
            let ghost before = self@;
            let lapsed = match self.orders.get(&k) {
                Some(o) => now > o.created_at && now - o.created_at > INSTALLMENT_WINDOW,
                None => false,
            };
            proof {
                lemma_take_push(ids, i as int);
                let f0 = |j: ItemId| ids.take(i as int).contains(j);
                if before.orders.contains_key(k) {
                    assert(v.orders.contains_key(k));
                }
                assert(!swept(v, now, f0, k));
            }
            if lapsed {
                self.drop_plan(k);
            }
            proof {
                let f0 = |j: ItemId| ids.take(i as int).contains(j);
                let f1 = |j: ItemId| ids.take(i as int + 1).contains(j);
                assert forall|j: ItemId| j != k implies swept(v, now, f1, j) == swept(v, now, f0, j) by {
                    assert(f1(j) == f0(j));
                }
                assert(swept(v, now, f1, k) == lapsed);
                let w = self@;
                if lapsed {
                    assert(before.orders.contains_key(k));
                    assert(w == plan_dropped(before, k));
                } else {
                    assert(w == before);
                }
                assert forall|j: ItemId| #[trigger]
                    w.orders.contains_key(j) <==> v.orders.contains_key(j) && !swept(v, now, f1, j) by {
                    if j != k {
                        assert(before.orders.contains_key(j) == w.orders.contains_key(j));
                    }
                }
                assert forall|j: ItemId| #[trigger] w.orders.contains_key(j) implies w.orders[j] == v.orders[j] by {
                    assert(before.orders.contains_key(j));
                }
                assert(w.sales.dom() == v.sales.dom());
                assert forall|j: ItemId| #[trigger] w.sales.contains_key(j) implies w.sales[j] == if swept(v, now, f1, j) {
                    Sale { in_installment: false, ..v.sales[j] }
                } else {
                    v.sales[j]
                } by {
                    assert(before.sales.contains_key(j));
                }
                assert(w.tokens.dom() == v.tokens.dom());
                assert forall|j: ItemId| #[trigger] w.tokens.contains_key(j) implies w.tokens[j] == if swept(v, now, f1, j) {
                    NonFungibleToken { installment_account: None, ..v.tokens[j] }
                } else {
                    v.tokens[j]
                } by {
                    assert(before.tokens.contains_key(j));
                }
                assert(sweep_result(v, self@, now, f1));
                if lapsed {
                    let old_done = done;
                    done = done.push(k);
                    lemma_push_fresh(old_done, k);
                    assert(done.drop_last() == old_done);
                }
                assert forall|j: ItemId| #[trigger] done.contains(j) <==> swept(v, now, f1, j) by {
                    if j != k {
                        assert(swept(v, now, f1, j) == swept(v, now, f0, j));
                    }
                }
            }
            i = i + 1;
        }
        proof {
            assert(ids.take(i as int) == ids);
            let f = |j: ItemId| ids.take(i as int).contains(j);
            let all = |j: ItemId| true;
            assert forall|k: ItemId| #[trigger] swept(v, now, all, k) == swept(v, now, f, k) by {
                if v.orders.contains_key(k) {
                    assert(v.tokens.contains_key(k));
                }
            }
            assert(lists_exactly(done, |k: ItemId| swept(v, now, all, k)));
        }
    }

    fn retire_sale(&mut self, id: ItemId)
        requires
            old(self).wf(),
            old(self)@.sales.contains_key(id),
        ensures
            final(self).wf(),
            final(self).token_ids == old(self).token_ids,
            final(self)@ == sale_retired(old(self)@, id),
    {
        self.drop_plan(id);
        proof {
            assert(self@.sales.contains_key(id));
            assert(!self@.sales[id].in_installment);
        }
        if let Some(sale) = self.sales.remove(&id) {
            self.ledger.unreserve(sale.owner, sale.deposit);
        }
    }

    /// Withdraws every listing whose time has passed at `now`, closing
    /// first any plan open on it as `clean_up_failed_installment` does; the
    /// lister's deposit goes back to it.
    pub fn remove_outdate_sales(&mut self, now: Moment)
        requires
            old(self).wf(),
        ensures
            final(self).wf(),
            sale_sweep_result(old(self)@, final(self)@, now, |k: ItemId| true),
            exists|keys: Seq<ItemId>|
                lists_exactly(keys, |k: ItemId| withdrawn(old(self)@, now, |j: ItemId| true, k))
                    && final(self)@.ledger == listings_refunded(old(self)@.ledger, old(self)@, keys),
    {
        let ghost v = self@;
        let ghost ids = self.token_ids@;
        let ghost mut done: Seq<ItemId> = Seq::empty();
        let mut i: usize = 0;
        while i < self.token_ids.len()
            invariant
                self.wf(),
                self.token_ids@ == ids,
                0 <= i <= ids.len(),
                forall|k: ItemId| #[trigger] v.tokens.contains_key(k) <==> ids.contains(k),
                sale_sweep_result(v, self@, now, |k: ItemId| ids.take(i as int).contains(k)),
                lists_exactly(done, |k: ItemId| withdrawn(v, now, |j: ItemId| ids.take(i as int).contains(j), k)),
                self@.ledger == listings_refunded(v.ledger, v, done),
            decreases ids.len() - i,
        {
            let k = self.token_ids[i];
            let ghost before = self@;
            let lapsed = match self.sales.get(&k) {
                Some(s) => s.expires_at < now,
                None => false,
            };
            proof {
                lemma_take_push(ids, i as int);
                let f0 = |j: ItemId| ids.take(i as int).contains(j);
                assert(!withdrawn(v, now, f0, k)) by {
                    if before.sales.contains_key(k) {
                        assert(v.sales.contains_key(k));
                    }
                }
                if before.sales.contains_key(k) {
                    assert(v.sales.contains_key(k));
                    assert(before.sales[k] == v.sales[k]);
                }
                if before.orders.contains_key(k) || v.orders.contains_key(k) {
                    assert(before.orders.contains_key(k) == v.orders.contains_key(k));
                }
                assert(before.tokens.contains_key(k) ==> before.tokens[k] == v.tokens[k]);
            }
            if lapsed {
                self.retire_sale(k);
            }
            proof {
                let f0 = |j: ItemId| ids.take(i as int).contains(j);
                let f1 = |j: ItemId| ids.take(i as int + 1).contains(j);
                assert forall|j: ItemId| j != k implies withdrawn(v, now, f1, j) == withdrawn(v, now, f0, j) by {
                    assert(f1(j) == f0(j));
                }
                assert(withdrawn(v, now, f1, k) == lapsed);
                let w = self@;
                if !lapsed {
                    assert(w == before);
                }
                assert forall|j: ItemId| #[trigger]
                    w.sales.contains_key(j) <==> v.sales.contains_key(j) && !withdrawn(v, now, f1, j) by {
                    if j != k {
                        assert(before.sales.contains_key(j) == w.sales.contains_key(j));
                    }
                }
                assert forall|j: ItemId| #[trigger] w.sales.contains_key(j) implies w.sales[j] == v.sales[j] by {
                    assert(before.sales.contains_key(j));
                }
                assert forall|j: ItemId| #[trigger]
                    w.orders.contains_key(j) <==> v.orders.contains_key(j) && !withdrawn(v, now, f1, j) by {
                    if j != k {
                        assert(before.orders.contains_key(j) == w.orders.contains_key(j));
                    }
                }
                assert forall|j: ItemId| #[trigger] w.orders.contains_key(j) implies w.orders[j] == v.orders[j] by {
                    assert(before.orders.contains_key(j));
                }
                assert(w.tokens.dom() == v.tokens.dom());
                assert forall|j: ItemId| #[trigger] w.tokens.contains_key(j) implies w.tokens[j] == if withdrawn(v, now, f1, j)
                    && v.orders.contains_key(j) {
                    NonFungibleToken { installment_account: None, ..v.tokens[j] }
                } else {
                    v.tokens[j]
                } by {
                    assert(before.tokens.contains_key(j));
                }
                assert(sale_sweep_result(v, self@, now, f1));
                if lapsed {
                    let old_done = done;
                    done = done.push(k);
                    lemma_push_fresh(old_done, k);
                    assert(done.drop_last() == old_done);
                }
                assert forall|j: ItemId| #[trigger] done.contains(j) <==> withdrawn(v, now, f1, j) by {
                    if j != k {
                        assert(withdrawn(v, now, f1, j) == withdrawn(v, now, f0, j));
                    }
                }
            }
            i = i + 1;
        }
        proof {
            assert(ids.take(i as int) == ids);
            let f = |j: ItemId| ids.take(i as int).contains(j);
            let all = |j: ItemId| true;
            assert forall|k: ItemId| #[trigger] withdrawn(v, now, all, k) == withdrawn(v, now, f, k) by {
                if v.sales.contains_key(k) {
                    assert(v.tokens.contains_key(k));
                }
            }
            assert(lists_exactly(done, |k: ItemId| withdrawn(v, now, all, k)));
        }
    }

    /// The open installment plans, each once.
    pub fn get_installment_orders(&self) -> (r: Vec<PayInstallmentOrder>)
        requires
            self.wf(),
        ensures
            forall|m: int|
                0 <= m < r@.len() ==> self@.orders.contains_key(#[trigger] r@[m].nft_id)
                    && self@.orders[r@[m].nft_id] == r@[m],
            forall|k: ItemId| #[trigger]
                self@.orders.contains_key(k) ==> exists|m: int| 0 <= m < r@.len() && r@[m].nft_id == k,
            forall|a: int, b: int| 0 <= a < b < r@.len() ==> r@[a].nft_id != r@[b].nft_id,
    {
        let mut r: Vec<PayInstallmentOrder> = Vec::new();
        let mut i: usize = 0;
        while i < self.token_ids.len()
            invariant
                self.wf(),
                0 <= i <= self.token_ids@.len(),
                forall|m: int|
                    0 <= m < r@.len() ==> self@.orders.contains_key(#[trigger] r@[m].nft_id)
                        && self@.orders[r@[m].nft_id] == r@[m] && self.token_ids@.take(i as int).contains(r@[m].nft_id),
                forall|k: ItemId| #[trigger]
                    self@.orders.contains_key(k) && self.token_ids@.take(i as int).contains(k) ==> exists|m: int|
                        0 <= m < r@.len() && r@[m].nft_id == k,
                forall|a: int, b: int| 0 <= a < b < r@.len() ==> r@[a].nft_id != r@[b].nft_id,
            decreases self.token_ids@.len() - i,
        {
            let k = self.token_ids[i];
            proof {
                lemma_take_push(self.token_ids@, i as int);
            }
            let ghost before = r@;
            match self.orders.get(&k) {
                Some(o) => {
                    proof {
                        assert(self@.orders.contains_key(k));
                        assert(self@.orders[k].nft_id == k);
                    }
                    r.push(*o);
                    proof {
                        assert(r@[r@.len() - 1].nft_id == k);
                        assert forall|kk: ItemId| #[trigger]
                            self@.orders.contains_key(kk) && self.token_ids@.take(i as int + 1).contains(kk) implies exists|m: int|
                                0 <= m < r@.len() && r@[m].nft_id == kk by {
                            if kk != k {
                                let m = choose|m: int| 0 <= m < before.len() && before[m].nft_id == kk;
                                assert(r@[m] == before[m]);
                            } else {
                                assert(r@[r@.len() - 1].nft_id == kk);
                            }
                        }
                        assert forall|m: int| 0 <= m < r@.len() implies self@.orders.contains_key(#[trigger] r@[m].nft_id)
                            && self@.orders[r@[m].nft_id] == r@[m] && self.token_ids@.take(i as int + 1).contains(r@[m].nft_id) by {
                            if m < before.len() {
                                assert(r@[m] == before[m]);
                            }
                        }
                    }
                },
                None => {},
            }
            i = i + 1;
        }
        proof {
            assert(self.token_ids@.take(i as int) == self.token_ids@);
            assert forall|k: ItemId| #[trigger] self@.orders.contains_key(k) implies exists|m: int| 0 <= m < r@.len() && r@[m].nft_id == k by {
                assert(self@.tokens.contains_key(k));
            }
        }
        r
    }

    /// The least amount of the next installment when `remaining` is left to pay
    /// over `periods_left` periods (at least one).
    pub fn calc_next_pay_amount(remaining: Balance, periods_left: u8) -> (r: Balance)
        ensures
            r == next_payment(remaining as int, periods_left),
    {
        if periods_left == 0 {
            remaining
        } else {
            remaining / (periods_left as u128)
        }
    }

    /// A small amount as a balance.
    pub fn u8_to_balance(input: u8) -> (r: Balance)
        ensures
            r == input,
    {
        input as Balance
    }

    /// A count as a balance.
    pub fn u32_to_balance(input: u32) -> (r: Balance)
        ensures
            r == input,
    {
        input as Balance
    }

    /// A balance that fits in a byte, as a byte.
    pub fn balance_to_u8(input: Balance) -> (r: u8)
        requires
            input <= u8::MAX,
        ensures
            r == input,
    {
        input as u8
    }
}

/// Appending an element absent from a list without repeats gives a list
/// without repeats that holds that element besides the others.
proof fn lemma_push_fresh(s: Seq<ItemId>, x: ItemId)
    requires
        s.no_duplicates(),
        !s.contains(x),
    ensures
        s.push(x).no_duplicates(),
        forall|j: ItemId| #[trigger] s.push(x).contains(j) <==> s.contains(j) || j == x,
{
    let t = s.push(x);
    assert forall|j: ItemId| #[trigger] t.contains(j) <==> s.contains(j) || j == x by {
        if t.contains(j) && j != x {
            let a = choose|a: int| 0 <= a < t.len() && #[trigger] t[a] == j;
            assert(s[a] == j);
        }
        if s.contains(j) {
            let a = choose|a: int| 0 <= a < s.len() && #[trigger] s[a] == j;
            assert(t[a] == j);
        }
        if j == x {
            assert(t[s.len() as int] == x);
        }
    }
    assert forall|a: int, b: int| 0 <= a < t.len() && 0 <= b < t.len() && a != b implies t[a] != t[b] by {
        if a < s.len() && b < s.len() {
            assert(t[a] == s[a] && t[b] == s[b]);
        } else if a < s.len() {
            assert(t[a] == s[a]);
        } else {
            assert(t[b] == s[b]);
        }
    }
}

/// Taking one more element of a list adds that element and no other.
proof fn lemma_take_push(ids: Seq<ItemId>, i: int)
    requires
        0 <= i < ids.len(),
        ids.no_duplicates(),
    ensures
        forall|j: ItemId| #[trigger]
            ids.take(i + 1).contains(j) <==> ids.take(i).contains(j) || j == ids[i],
        !ids.take(i).contains(ids[i]),
{
    let k = ids[i];
    assert forall|j: ItemId| #[trigger] ids.take(i + 1).contains(j) <==> ids.take(i).contains(j) || j == k by {
        if ids.take(i + 1).contains(j) && j != k {
            let a = choose|a: int| 0 <= a < i + 1 && #[trigger] ids.take(i + 1)[a] == j;
            assert(ids.take(i)[a] == j);
        }
        if ids.take(i).contains(j) {
            let a = choose|a: int| 0 <= a < i && #[trigger] ids.take(i)[a] == j;
            assert(ids.take(i + 1)[a] == j);
        }
        if j == k {
            assert(ids.take(i + 1)[i] == k);
        }
    }
    if ids.take(i).contains(k) {
        let a = choose|a: int| 0 <= a < i && #[trigger] ids.take(i)[a] == k;
        assert(ids[a] == ids[i]);
    }
}

/// Whether the sweeps are due at the block `block_number`: once every
/// `SWEEP_PERIOD` blocks.
pub fn sweep_due(block_number: u64) -> (r: bool)
    ensures
        r == (block_number % SWEEP_PERIOD == 0),
{
    block_number % SWEEP_PERIOD == 0
}

} // verus!
