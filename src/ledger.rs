//! The ledger of account balances and the house balance, and the settlement of
//! wagers against it.
use vstd::prelude::*;
use crate::error::GameError;
use crate::outcome::{dice_100_roll, dice_of, percentile_of, roll_dices, roulette_spin, wheel_of, DRAW_BYTES};
use crate::roulette::{check_point_roulette, roulette_payout};
use crate::sicbo::{check_point_sicbo, sicbo_multiplier_of};
use vstd::utf8::encode_utf8;

verus! {

/// A player's account: its identity and its balance.
pub struct Account {
    pub account_id: String,
    pub deposit: u128,
}

/// Whether no two accounts of `users` share an identity.
pub open spec fn ids_unique(users: Seq<Account>) -> bool {
    forall|i: int, j: int|
        0 <= i < users.len() && 0 <= j < users.len() && i != j ==> users[i].account_id@
            != users[j].account_id@
}

/// Whether some account of `users` has identity `id`.
pub open spec fn has_id(users: Seq<Account>, id: Seq<char>) -> bool {
    exists|i: int| 0 <= i < users.len() && #[trigger] users[i].account_id@ == id
}

/// The position of the account with identity `id` in `users`.
pub open spec fn index_of(users: Seq<Account>, id: Seq<char>) -> int {
    choose|i: int| 0 <= i < users.len() && #[trigger] users[i].account_id@ == id
}

/// The balance of each identity that has an account.
pub open spec fn balances_of(users: Seq<Account>) -> Map<Seq<char>, u128> {
    Map::new(|id: Seq<char>| has_id(users, id), |id: Seq<char>| users[index_of(users, id)].deposit)
}

/// The account at position `i` is the one that its identity finds.
pub proof fn lemma_index_of(users: Seq<Account>, i: int)
    requires
        ids_unique(users),
        0 <= i < users.len(),
    ensures
        has_id(users, users[i].account_id@),
        index_of(users, users[i].account_id@) == i,
        balances_of(users).contains_key(users[i].account_id@),
        balances_of(users)[users[i].account_id@] == users[i].deposit,
{
    let id = users[i].account_id@;
    assert(users[i].account_id@ == id);
    let j = index_of(users, id);
    assert(users[j].account_id@ == id);
}

/// Changing the balance of the account at position `i` changes that balance in
/// the map and nothing else.
pub proof fn lemma_update_balance(users: Seq<Account>, i: int, a: Account)
    requires
        ids_unique(users),
        0 <= i < users.len(),
        a.account_id@ == users[i].account_id@,
    ensures
        ids_unique(users.update(i, a)),
        balances_of(users.update(i, a)) == balances_of(users).insert(a.account_id@, a.deposit),
{
    let u2 = users.update(i, a);
    assert(ids_unique(u2)) by {
        assert forall|x: int, y: int|
            0 <= x < u2.len() && 0 <= y < u2.len() && x != y implies u2[x].account_id@
            != u2[y].account_id@ by {
            assert(u2[x].account_id@ == users[x].account_id@);
            assert(u2[y].account_id@ == users[y].account_id@);
        }
    }
    lemma_index_of(u2, i);
    assert forall|k: Seq<char>| #[trigger] has_id(u2, k) == has_id(users, k) by {
        if has_id(users, k) {
            let j = index_of(users, k);
            assert(u2[j].account_id@ == k);
        }
        if has_id(u2, k) {
            let j = index_of(u2, k);
            assert(users[j].account_id@ == k);
        }
    }
    assert forall|k: Seq<char>| has_id(u2, k) && k != a.account_id@ implies #[trigger] u2[index_of(
        u2,
        k,
    )].deposit == users[index_of(users, k)].deposit by {
        let j = index_of(users, k);
        assert(users[j].account_id@ == k);
        assert(j != i);
        assert(u2[j] == users[j]);
        lemma_index_of(u2, j);
    }
    assert(balances_of(u2) =~= balances_of(users).insert(a.account_id@, a.deposit));
}

/// Adding an account with a new identity adds its balance to the map.
pub proof fn lemma_add_account(users: Seq<Account>, a: Account)
    requires
        ids_unique(users),
        !has_id(users, a.account_id@),
    ensures
        ids_unique(users.push(a)),
        balances_of(users.push(a)) == balances_of(users).insert(a.account_id@, a.deposit),
{
    let u2 = users.push(a);
    assert(ids_unique(u2)) by {
        assert forall|x: int, y: int|
            0 <= x < u2.len() && 0 <= y < u2.len() && x != y implies u2[x].account_id@
            != u2[y].account_id@ by {
            if x < users.len() && y < users.len() {
                assert(u2[x] == users[x] && u2[y] == users[y]);
            } else if x < users.len() {
                assert(u2[x] == users[x]);
            } else {
                assert(u2[y] == users[y]);
            }
        }
    }
    lemma_index_of(u2, users.len() as int);
    assert forall|k: Seq<char>| #[trigger] has_id(u2, k) == (has_id(users, k) || k
        == a.account_id@) by {
        if has_id(users, k) {
            let j = index_of(users, k);
            assert(u2[j] == users[j]);
        }
        if has_id(u2, k) && k != a.account_id@ {
            let j = index_of(u2, k);
            assert(j < users.len());
            assert(u2[j] == users[j]);
        }
    }
    assert forall|k: Seq<char>| has_id(u2, k) && k != a.account_id@ implies #[trigger] u2[index_of(
        u2,
        k,
    )].deposit == users[index_of(users, k)].deposit by {
        let j = index_of(users, k);
        assert(users[j].account_id@ == k);
        assert(u2[j] == users[j]);
        lemma_index_of(u2, j);
    }
    assert(balances_of(u2) =~= balances_of(users).insert(a.account_id@, a.deposit));
}

/// The outcome of a wager of the three-dice game.
pub struct SicBoResult {
    pub account_id: String,
    pub dices: Vec<u8>,
    pub total_winning: u128,
}

/// The outcome of a wager of the wheel game.
pub struct RouletteResult {
    pub account_id: String,
    pub roulette_value: u8,
    pub total_winning: u128,
}

/// The outcome of a threshold roll.
pub struct DiceResult {
    pub account_id: String,
    pub dice_value: u8,
    pub total_winning: u128,
}

/// A wager: bet identifiers, each with its stake.
pub type Bets = Vec<(String, u128)>;

/// The UTF-8 bytes of a bet identifier.
pub open spec fn bet_bytes(bet: String) -> Seq<u8> {
    encode_utf8(bet@)
}

/// The sum of the first `n` stakes.
pub open spec fn stake_sum(bets: Seq<(String, u128)>, n: int) -> int
    decreases n,
{
    if n <= 0 || n > bets.len() {
        0
    } else {
        stake_sum(bets, n - 1) + bets[n - 1].1
    }
}

/// The sum of the first `n` payouts, line `i` paying `ms[i]` times its stake.
pub open spec fn win_sum(bets: Seq<(String, u128)>, ms: Seq<int>, n: int) -> int
    decreases n,
{
    if n <= 0 || n > bets.len() {
        0
    } else {
        win_sum(bets, ms, n - 1) + ms[n - 1] * bets[n - 1].1
    }
}

/// The total stake of a wager.
pub open spec fn total_stake(bets: Seq<(String, u128)>) -> int {
    stake_sum(bets, bets.len() as int)
}

/// The total payout of a wager whose line `i` pays `ms[i]` times its stake.
pub open spec fn total_winnings(bets: Seq<(String, u128)>, ms: Seq<int>) -> int {
    win_sum(bets, ms, bets.len() as int)
}

/// The multiplier of each line of a three-dice wager, the dice showing `d`.
pub open spec fn sicbo_multipliers(bets: Seq<(String, u128)>, d: Seq<u8>) -> Seq<int> {
    Seq::new(bets.len(), |i: int| sicbo_multiplier_of(bet_bytes(bets[i].0), d))
}

/// Whether no line of a wheel wager is a malformed grouping, the wheel showing `v`.
pub open spec fn roulette_lines_valid(bets: Seq<(String, u128)>, v: int) -> bool {
    forall|i: int| 0 <= i < bets.len() ==> #[trigger] roulette_payout(bet_bytes(bets[i].0), v) is Some
}

/// The multiplier of each line of a wheel wager, the wheel showing `v`.
pub open spec fn roulette_multipliers(bets: Seq<(String, u128)>, v: int) -> Seq<int> {
    Seq::new(
        bets.len(),
        |i: int|
            match roulette_payout(bet_bytes(bets[i].0), v) {
                Some(m) => m,
                None => 0,
            },
    )
}

/// The payout of a threshold roll: a stake `bet` under threshold `t` that rolled
/// `roll` wins `bet × 98.5 / (t − 1)`, rounded down, when `roll < t`.
pub open spec fn dice_winnings(bet: int, t: int, roll: int) -> int {
    if roll < t {
        bet * 197 / (2 * (t - 1))
    } else {
        0
    }
}

/// Settling a wager of total `stake` that pays `winnings` against an account
/// holding `balance` and a house holding `house`: the new balance and the new
/// house balance, or why the wager is refused.
pub open spec fn settle(balance: int, house: int, stake: int, winnings: int) -> Result<
    (int, int),
    GameError,
> {
    if stake > u128::MAX || winnings > u128::MAX {
        Err(GameError::ArithmeticOverflow)
    } else if stake > balance {
        Err(GameError::InsufficientBalance)
    } else if balance - stake + winnings > u128::MAX || house + stake - winnings < 0 || house
        + stake - winnings > u128::MAX {
        Err(GameError::ArithmeticOverflow)
    } else {
        Ok((balance - stake + winnings, house + stake - winnings))
    }
}

/// Partial sums of stakes and of payouts only grow.
proof fn lemma_sums_grow(bets: Seq<(String, u128)>, ms: Seq<int>, a: int, b: int)
    requires
        0 <= a <= b <= bets.len(),
        ms.len() == bets.len(),
        forall|i: int| 0 <= i < ms.len() ==> ms[i] >= 0,
    ensures
        stake_sum(bets, a) <= stake_sum(bets, b),
        win_sum(bets, ms, a) <= win_sum(bets, ms, b),
    decreases b - a,
{
    if a < b {
        lemma_sums_grow(bets, ms, a, b - 1);
        assert(ms[b - 1] * bets[b - 1].1 >= 0) by (nonlinear_arith)
            requires
                ms[b - 1] >= 0,
        ;
    }
}

/// The total stake and total payout of a wager whose line `i` pays `mults[i]`
/// times its stake, or `None` where either exceeds 128 bits.
fn accumulate(bets: &Bets, mults: &Vec<u32>, ms: Ghost<Seq<int>>) -> (r: Option<(u128, u128)>)
    requires
        mults@.len() == bets@.len(),
        ms@.len() == bets@.len(),
        forall|i: int| 0 <= i < bets@.len() ==> ms@[i] == mults@[i] as int,
    ensures
        match r {
            Some((s, w)) => s == total_stake(bets@) && w == total_winnings(bets@, ms@),
            None => total_stake(bets@) > u128::MAX || total_winnings(bets@, ms@) > u128::MAX,
        },
{
    let mut total: u128 = 0;
    let mut total_winning: u128 = 0;
    let mut i: usize = 0;
    while i < bets.len()
        invariant
            0 <= i <= bets@.len(),
            mults@.len() == bets@.len(),
            ms@.len() == bets@.len(),
            forall|k: int| 0 <= k < bets@.len() ==> ms@[k] == mults@[k] as int,
            total == stake_sum(bets@, i as int),
            total_winning == win_sum(bets@, ms@, i as int),
        decreases bets@.len() - i,
    {
        let stake = bets[i].1;
        let line = (mults[i] as u128).checked_mul(stake);
        let next_total = total.checked_add(stake);
        proof {
            lemma_sums_grow(bets@, ms@, (i + 1) as int, bets@.len() as int);
        }
        match (next_total, line) {
            (Some(t), Some(l)) => match total_winning.checked_add(l) {
                Some(w) => {
                    total = t;
                    total_winning = w;
                },
                None => return None,
            },
            _ => {
                proof {
                    lemma_sums_grow(bets@, ms@, i as int, (i + 1) as int);
                    if line is None {
                        assert(win_sum(bets@, ms@, (i + 1) as int) >= ms@[i as int] * stake) by {
                            assert(win_sum(bets@, ms@, i as int) >= 0) by {
                                lemma_sums_grow(bets@, ms@, 0, i as int);
                            }
                        }
                    }
                }
                return None;
            },
        }
        i = i + 1;
    }
    Some((total, total_winning))
}

/// The payout of a threshold roll (see `dice_winnings`), or `None` where it
/// exceeds 128 bits.
fn threshold_payout(bet: u128, roll_under: u8, roll: u8) -> (r: Option<u128>)
    requires
        1 < roll_under < 97,
    ensures
        match r {
            Some(w) => w == dice_winnings(bet as int, roll_under as int, roll as int),
            None => dice_winnings(bet as int, roll_under as int, roll as int) > u128::MAX,
        },
{
    if roll >= roll_under {
        return Some(0);
    }
    let d: u128 = 2 * (roll_under as u128 - 1);
    let q = bet / d;
    let rem = bet % d;
    let part = rem * 197 / d;
    proof {
        let (b, dd, qq, rr) = (bet as int, d as int, q as int, rem as int);
        vstd::arithmetic::div_mod::lemma_fundamental_div_mod(b, dd);
        assert(b * 197 == rr * 197 + (qq * 197) * dd) by (nonlinear_arith)
            requires
                b == dd * qq + rr,
        ;
        vstd::arithmetic::div_mod::lemma_hoist_over_denominator(rr * 197, qq * 197, dd as nat);
    }
    match q.checked_mul(197) {
        Some(whole) => whole.checked_add(part),
        None => None,
    }
}

/// The ledger: every player's account and the house balance.
pub struct Contract {
    house: u128,
    users: Vec<Account>,
}

/// What `get_account` reports for identity `id`: the identity and its balance,
/// or `UnknownAccount`.
pub open spec fn account_lookup(balances: Map<Seq<char>, u128>, id: Seq<char>) -> Result<
    (Seq<char>, u128),
    GameError,
> {
    if balances.contains_key(id) {
        Ok((id, balances[id]))
    } else {
        Err(GameError::UnknownAccount)
    }
}

/// How a wager of total `stake` paying `winnings` by account `id` ends, given
/// the ledger's balances and house balance before it: the new balance and house
/// balance, or why it is refused.
pub open spec fn wager_result(
    balances: Map<Seq<char>, u128>,
    house: int,
    id: Seq<char>,
    stake: int,
    winnings: int,
) -> Result<(int, int), GameError> {
    if !balances.contains_key(id) {
        Err(GameError::UnknownAccount)
    } else {
        settle(balances[id] as int, house, stake, winnings)
    }
}

/// How a wheel wager ends: as `wager_result`, but a malformed grouping of numbers
/// on any line refuses the whole wager first.
pub open spec fn roulette_result(
    balances: Map<Seq<char>, u128>,
    house: int,
    id: Seq<char>,
    bets: Seq<(String, u128)>,
    v: int,
) -> Result<(int, int), GameError> {
    if !balances.contains_key(id) {
        Err(GameError::UnknownAccount)
    } else if !roulette_lines_valid(bets, v) {
        Err(GameError::InvalidCompositeBet)
    } else {
        wager_result(balances, house, id, total_stake(bets), total_winnings(bets, roulette_multipliers(bets, v)))
    }
}

/// How a threshold roll ends: a threshold outside `2..=96` is refused first.
pub open spec fn dice_result(
    balances: Map<Seq<char>, u128>,
    house: int,
    id: Seq<char>,
    threshold: int,
    bet: int,
    roll: int,
) -> Result<(int, int), GameError> {
    if !(1 < threshold < 97) {
        Err(GameError::InvalidThreshold)
    } else {
        wager_result(balances, house, id, bet, dice_winnings(bet, threshold, roll))
    }
}

/// A settled wager of any of the three games moves value between the player and
/// the house and creates none: the change of the player's balance and the change
/// of the house balance add up to zero.
pub proof fn lemma_zero_sum(
    balances: Map<Seq<char>, u128>,
    house: int,
    id: Seq<char>,
    bets: Seq<(String, u128)>,
    d: Seq<u8>,
    v: int,
    threshold: int,
    bet: int,
    roll: int,
)
    ensures
        ({
            let r = wager_result(balances, house, id, total_stake(bets), total_winnings(bets, sicbo_multipliers(bets, d)));
            r is Ok ==> (r->Ok_0.0 - balances[id]) + (r->Ok_0.1 - house) == 0
        }),
        ({
            let r = roulette_result(balances, house, id, bets, v);
            r is Ok ==> (r->Ok_0.0 - balances[id]) + (r->Ok_0.1 - house) == 0
        }),
        ({
            let r = dice_result(balances, house, id, threshold, bet, roll);
            r is Ok ==> (r->Ok_0.0 - balances[id]) + (r->Ok_0.1 - house) == 0
        }),
{
}

/// Reading an account does not change the ledger, so two reads with no change in
/// between report the same identity and balance.
pub proof fn lemma_get_account_idempotent(
    c: Contract,
    id: Seq<char>,
    first: Result<Account, GameError>,
    second: Result<Account, GameError>,
)
    requires
        lookup_view(first) == account_lookup(c.balances(), id),
        lookup_view(second) == account_lookup(c.balances(), id),
    ensures
        lookup_view(first) == lookup_view(second),
        first is Ok <==> second is Ok,
        first is Ok ==> first->Ok_0.deposit == second->Ok_0.deposit,
{
}

/// What a lookup returned, over plain values.
pub open spec fn lookup_view(r: Result<Account, GameError>) -> Result<(Seq<char>, u128), GameError> {
    match r {
        Ok(a) => Ok((a.account_id@, a.deposit)),
        Err(e) => Err(e),
    }
}

impl Default for Contract {
    /// An empty ledger (see `Contract::new`).
    fn default() -> (r: Contract)
        ensures
            r.wf(),
            r.balances() == Map::<Seq<char>, u128>::empty(),
            r.house_balance() == 0,
    {
        Contract::new()
    }
}

impl Contract {
    /// Whether no two accounts share an identity.
    pub closed spec fn wf(&self) -> bool {
        ids_unique(self.users@)
    }

    /// The balance of each identity that has an account.
    pub closed spec fn balances(&self) -> Map<Seq<char>, u128> {
        balances_of(self.users@)
    }

    /// The house balance.
    pub closed spec fn house_balance(&self) -> int {
        self.house as int
    }

    /// An empty ledger with a house balance of 0.
    pub fn new() -> (r: Contract)
        ensures
            r.wf(),
            r.balances() == Map::<Seq<char>, u128>::empty(),
            r.house_balance() == 0,
    {
        Contract::with_house(0)
    }

    /// A ledger with no accounts whose house holds `house`.
    pub fn with_house(house: u128) -> (r: Contract)
        ensures
            r.wf(),
            r.balances() == Map::<Seq<char>, u128>::empty(),
            r.house_balance() == house,
    {
        let r = Contract { house, users: Vec::new() };
        assert(r.balances() =~= Map::<Seq<char>, u128>::empty());
        r
    }

    /// The house balance.
    pub fn house(&self) -> (r: u128)
        ensures
            r == self.house_balance(),
    {
        self.house
    }

    /// The position of the account with identity `account_id`, if any.
    fn find(&self, account_id: &String) -> (r: Option<usize>)
        requires
            self.wf(),
        ensures
            match r {
                Some(i) => i < self.users@.len() && self.users@[i as int].account_id@
                    == account_id@,
                None => !self.balances().contains_key(account_id@),
            },
    {
        let mut i: usize = 0;
        while i < self.users.len()
            invariant
                0 <= i <= self.users@.len(),
                forall|j: int| 0 <= j < i ==> self.users@[j].account_id@ != account_id@,
            decreases self.users@.len() - i,
        {
            if self.users[i].account_id == *account_id {
                return Some(i);
            }
            i = i + 1;
        }
        None
    }

    /// Sets the balance of the account at position `i`.
    fn set_balance(&mut self, i: usize, amount: u128)
        requires
            old(self).wf(),
            i < old(self).users@.len(),
        ensures
            final(self).wf(),
            final(self).house == old(self).house,
            final(self).balances() == old(self).balances().insert(
                old(self).users@[i as int].account_id@,
                amount,
            ),
    {
        let ghost before = self.users@;
        self.users[i].deposit = amount;
        proof {
            assert(self.users@ == before.update(
                i as int,
                Account { account_id: before[i as int].account_id, deposit: amount },
            ));
            lemma_update_balance(
                before,
                i as int,
                Account { account_id: before[i as int].account_id, deposit: amount },
            );
        }
    }

    /// Credits `amount` to the account `account_id`, opening it where it does not
    /// exist, and returns the new balance.
    pub fn deposit(&mut self, account_id: String, amount: u128) -> (r: u128)
        requires
            old(self).wf(),
            old(self).balances().contains_key(account_id@) ==> old(self).balances()[account_id@]
                + amount <= u128::MAX,
        ensures
            final(self).wf(),
            final(self).house_balance() == old(self).house_balance(),
            r == (if old(self).balances().contains_key(account_id@) {
                old(self).balances()[account_id@] + amount
            } else {
                amount as int
            }),
            final(self).balances() == old(self).balances().insert(account_id@, r),
    {
        match self.find(&account_id) {
            Some(i) => {
                proof {
                    lemma_index_of(self.users@, i as int);
                }
                let balance = self.users[i].deposit + amount;
                self.set_balance(i, balance);
                balance
            },
            None => {
                let ghost before = self.users@;
                let ghost id = account_id@;
                proof {
                    assert(!has_id(before, id));
                }
                let user = Account { account_id, deposit: amount };
                self.users.push(user);
                proof {
                    lemma_add_account(before, Account { account_id: user.account_id, deposit: amount });
                }
                amount
            },
        }
    }

    /// Debits `amount` from the account `account_id` and returns the new balance.
    /// The caller hands the amount over to the player only on `Ok`.
    pub fn withdraw(&mut self, account_id: &String, amount: u128) -> (r: Result<u128, GameError>)
        requires
            old(self).wf(),
        ensures
            final(self).wf(),
            final(self).house_balance() == old(self).house_balance(),
            !old(self).balances().contains_key(account_id@) ==> r == Err::<u128, GameError>(
                GameError::UnknownAccount,
            ),
            old(self).balances().contains_key(account_id@) && amount > old(self).balances()[account_id@]
                ==> r == Err::<u128, GameError>(GameError::InsufficientBalance),
            old(self).balances().contains_key(account_id@) && amount <= old(self).balances()[account_id@]
                ==> r == Ok::<u128, GameError>((old(self).balances()[account_id@] - amount) as u128),
            r is Ok ==> final(self).balances() == old(self).balances().insert(
                account_id@,
                r->Ok_0,
            ),
            r is Err ==> *final(self) == *old(self),
    {
        match self.find(account_id) {
            Some(i) => {
                proof {
                    lemma_index_of(self.users@, i as int);
                }
                let balance = self.users[i].deposit;
                if amount > balance {
                    return Err(GameError::InsufficientBalance);
                }
                self.set_balance(i, balance - amount);
                Ok(balance - amount)
            },
            None => Err(GameError::UnknownAccount),
        }
    }

    /// The account `account_id`: its identity and balance.
    pub fn get_account(&self, account_id: &String) -> (r: Result<Account, GameError>)
        requires
            self.wf(),
        ensures
            lookup_view(r) == account_lookup(self.balances(), account_id@),
    {
        match self.find(account_id) {
            Some(i) => {
                proof {
                    lemma_index_of(self.users@, i as int);
                }
                Ok(Account { account_id: account_id.clone(), deposit: self.users[i].deposit })
            },
            None => Err(GameError::UnknownAccount),
        }
    }

    /// Settles a wager of total `stake` paying `winnings` on the account at
    /// position `i`, and returns the new balance.
    fn commit(&mut self, i: usize, stake: u128, winnings: u128) -> (r: Result<u128, GameError>)
        requires
            old(self).wf(),
            i < old(self).users@.len(),
        ensures
            final(self).wf(),
            ({
                let id = old(self).users@[i as int].account_id@;
                match settle(
                    old(self).balances()[id] as int,
                    old(self).house_balance(),
                    stake as int,
                    winnings as int,
                ) {
                    Ok((b, h)) => r == Ok::<u128, GameError>(b as u128) && final(self).balances()
                        == old(self).balances().insert(id, b as u128) && final(self).house_balance()
                        == h,
                    Err(e) => r == Err::<u128, GameError>(e) && *final(self) == *old(self),
                }
            }),
    {
        proof {
            lemma_index_of(self.users@, i as int);
        }
        let balance = self.users[i].deposit;
        if stake > balance {
            return Err(GameError::InsufficientBalance);
        }
        let after_stake = balance - stake;
        if winnings > u128::MAX - after_stake {
            return Err(GameError::ArithmeticOverflow);
        }
        let new_balance = after_stake + winnings;
        let new_house: u128;
        if winnings <= stake {
            let gain = stake - winnings;
            if self.house > u128::MAX - gain {
                return Err(GameError::ArithmeticOverflow);
            }
            new_house = self.house + gain;
        } else {
            let loss = winnings - stake;
            if loss > self.house {
                return Err(GameError::ArithmeticOverflow);
            }
            new_house = self.house - loss;
        }
        self.set_balance(i, new_balance);
        self.house = new_house;
        Ok(new_balance)
    }

    /// Plays a wager of the three-dice game for `account_id`, with dice rolled
    /// from `seed`. Each line pays its bet's multiplier times its stake; the
    /// stakes are taken from the balance and the payouts added, and the house
    /// balance moves by the exact opposite.
    pub fn play_sicbo(&mut self, account_id: &String, bets: &Bets, seed: &Vec<u8>) -> (r: Result<
        SicBoResult,
        GameError,
    >)
        requires
            old(self).wf(),
            seed@.len() >= DRAW_BYTES,
        ensures
            final(self).wf(),
            r is Ok ==> final(self).balances()[account_id@] as int + final(self).house_balance()
                == old(self).balances()[account_id@] as int + old(self).house_balance(),
            old(self).balances().contains_key(account_id@) && total_stake(bets@) <= u128::MAX
                && total_winnings(bets@, sicbo_multipliers(bets@, dice_of(seed@))) <= u128::MAX
                && total_stake(bets@) > old(self).balances()[account_id@] ==> (r matches Err(x)
                && x == GameError::InsufficientBalance && *final(self) == *old(self)),
            ({
                let d = dice_of(seed@);
                let w = total_winnings(bets@, sicbo_multipliers(bets@, d));
                match wager_result(
                    old(self).balances(),
                    old(self).house_balance(),
                    account_id@,
                    total_stake(bets@),
                    w,
                ) {
                    Ok((b, h)) => r matches Ok(res) && res.account_id@ == account_id@ && res.dices@
                        == d && res.total_winning == w && final(self).balances() == old(self).balances().insert(account_id@, b as u128) && final(self).house_balance()
                        == h,
                    Err(e) => r matches Err(x) && x == e && *final(self) == *old(self),
                }
            }),
    {
        let i = match self.find(account_id) {
            Some(i) => i,
            None => return Err(GameError::UnknownAccount),
        };
        let dices = roll_dices(seed);
        let ghost ms = sicbo_multipliers(bets@, dices@);
        let mut mults: Vec<u32> = Vec::new();
        let mut k: usize = 0;
        while k < bets.len()
            invariant
                0 <= k <= bets@.len(),
                dices@.len() == 3,
                ms == sicbo_multipliers(bets@, dices@),
                mults@.len() == k,
                forall|j: int| 0 <= j < k ==> ms[j] == mults@[j] as int,
            decreases bets@.len() - k,
        {
            mults.push(check_point_sicbo(bets[k].0.as_str(), &dices));
            k = k + 1;
        }
        let (total, total_winning) = match accumulate(bets, &mults, Ghost(ms)) {
            Some(t) => t,
            None => return Err(GameError::ArithmeticOverflow),
        };
        proof {
            lemma_index_of(self.users@, i as int);
        }
        match self.commit(i, total, total_winning) {
            Ok(_) => Ok(SicBoResult { account_id: account_id.clone(), dices, total_winning }),
            Err(e) => Err(e),
        }
    }

    /// Plays a wager of the wheel game for `account_id`, with the wheel spun from
    /// `seed`. A malformed grouping of numbers on any line refuses the whole
    /// wager; otherwise it settles as `play_sicbo` does.
    pub fn play_roulette(&mut self, account_id: &String, bets: &Bets, seed: &Vec<u8>) -> (r:
        Result<RouletteResult, GameError>)
        requires
            old(self).wf(),
            seed@.len() >= DRAW_BYTES,
        ensures
            final(self).wf(),
            r is Ok ==> final(self).balances()[account_id@] as int + final(self).house_balance()
                == old(self).balances()[account_id@] as int + old(self).house_balance(),
            old(self).balances().contains_key(account_id@) && roulette_lines_valid(bets@, wheel_of(seed@))
                && total_stake(bets@) <= u128::MAX && total_winnings(bets@, roulette_multipliers(bets@, wheel_of(seed@)))
                <= u128::MAX && total_stake(bets@) > old(self).balances()[account_id@] ==> (r matches Err(x)
                && x == GameError::InsufficientBalance && *final(self) == *old(self)),
            ({
                let v = wheel_of(seed@);
                let w = total_winnings(bets@, roulette_multipliers(bets@, v));
                match roulette_result(
                    old(self).balances(),
                    old(self).house_balance(),
                    account_id@,
                    bets@,
                    v,
                ) {
                    Ok((b, h)) => r matches Ok(res) && res.account_id@ == account_id@
                        && res.roulette_value == v && res.total_winning == w && final(self).balances() == old(self).balances().insert(account_id@, b as u128) && final(self).house_balance() == h,
                    Err(e) => r matches Err(x) && x == e && *final(self) == *old(self),
                }
            }),
    {
        let i = match self.find(account_id) {
            Some(i) => i,
            None => return Err(GameError::UnknownAccount),
        };
        let roulette_value = roulette_spin(seed);
        proof {
            lemma_index_of(self.users@, i as int);
        }
        let ghost ms = roulette_multipliers(bets@, roulette_value as int);
        let mut mults: Vec<u32> = Vec::new();
        let mut k: usize = 0;
        while k < bets.len()
            invariant
                0 <= k <= bets@.len(),
                roulette_value <= 36,
                roulette_value == wheel_of(seed@),
                *self == *old(self),
                old(self).wf(),
                old(self).balances().contains_key(account_id@),
                i < self.users@.len(),
                self.users@[i as int].account_id@ == account_id@,
                ms == roulette_multipliers(bets@, roulette_value as int),
                mults@.len() == k,
                forall|j: int|
                    0 <= j < k ==> #[trigger] roulette_payout(bet_bytes(bets@[j].0), roulette_value as int)
                        == Some(mults@[j] as int),
            decreases bets@.len() - k,
        {
            match check_point_roulette(bets[k].0.as_str(), roulette_value) {
                Ok(m) => mults.push(m),
                Err(_) => {
                    assert(roulette_payout(bet_bytes(bets@[k as int].0), roulette_value as int) is None);
                    assert(!roulette_lines_valid(bets@, roulette_value as int));
                    return Err(GameError::InvalidCompositeBet);
                },
            }
            k = k + 1;
        }
        assert(roulette_lines_valid(bets@, roulette_value as int));
        let (total, total_winning) = match accumulate(bets, &mults, Ghost(ms)) {
            Some(t) => t,
            None => return Err(GameError::ArithmeticOverflow),
        };
        proof {
            lemma_index_of(self.users@, i as int);
        }
        match self.commit(i, total, total_winning) {
            Ok(_) => Ok(RouletteResult { account_id: account_id.clone(), roulette_value, total_winning }),
            Err(e) => Err(e),
        }
    }

    /// Plays a threshold roll for `account_id`: a percentile is rolled from
    /// `seed`, and a stake `bet` under threshold `roll_under` wins
    /// `bet × 98.5 / (roll_under − 1)`, rounded down, when the roll is below the
    /// threshold; otherwise the stake is lost. It settles as `play_sicbo` does.
    pub fn play_dice(&mut self, account_id: &String, roll_under: u8, bet: u128, seed: &Vec<u8>) -> (r:
        Result<DiceResult, GameError>)
        requires
            old(self).wf(),
            seed@.len() >= DRAW_BYTES,
        ensures
            final(self).wf(),
            r is Ok ==> final(self).balances()[account_id@] as int + final(self).house_balance()
                == old(self).balances()[account_id@] as int + old(self).house_balance(),
            1 < roll_under < 97 && old(self).balances().contains_key(account_id@) && dice_winnings(
                bet as int,
                roll_under as int,
                percentile_of(seed@),
            ) <= u128::MAX && bet > old(self).balances()[account_id@] ==> (r matches Err(x) && x
                == GameError::InsufficientBalance && *final(self) == *old(self)),
            ({
                let roll = percentile_of(seed@);
                let w = dice_winnings(bet as int, roll_under as int, roll);
                match dice_result(
                    old(self).balances(),
                    old(self).house_balance(),
                    account_id@,
                    roll_under as int,
                    bet as int,
                    roll,
                ) {
                    Ok((b, h)) => r matches Ok(res) && res.account_id@ == account_id@
                        && res.dice_value == roll && res.total_winning == w && final(self).balances() == old(self).balances().insert(account_id@, b as u128) && final(self).house_balance() == h,
                    Err(e) => r matches Err(x) && x == e && *final(self) == *old(self),
                }
            }),
    {
        if roll_under <= 1 || roll_under >= 97 {
            return Err(GameError::InvalidThreshold);
        }
        let i = match self.find(account_id) {
            Some(i) => i,
            None => return Err(GameError::UnknownAccount),
        };
        let dice_value = dice_100_roll(seed);
        let total_winning = match threshold_payout(bet, roll_under, dice_value) {
            Some(w) => w,
            None => return Err(GameError::ArithmeticOverflow),
        };
        proof {
            lemma_index_of(self.users@, i as int);
        }
        match self.commit(i, bet, total_winning) {
            Ok(_) => Ok(DiceResult { account_id: account_id.clone(), dice_value, total_winning }),
            Err(e) => Err(e),
        }
    }
}

} // verus!
