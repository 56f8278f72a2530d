//! The payout table of the wheel game, with the geometry of its composite bets.
use vstd::prelude::*;
use vstd::string::StringSliceAdditionalSpecFns;
use crate::error::GameError;
use crate::text::{decimal, digit_value, is_digit, same_bytes, spells, DIGIT_ZERO};

verus! {

/// The byte value of `|`, which joins the numbers of a composite bet.
pub const BAR: u8 = 124;

/// The largest number on the wheel.
pub const TOP_NUMBER: u8 = 36;

/// Reading `s` left to right and cutting at each `|`: the parts already closed,
/// and the part still open.
pub open spec fn split_scan(s: Seq<u8>) -> (Seq<Seq<u8>>, Seq<u8>)
    decreases s.len(),
{
    if s.len() == 0 {
        (Seq::empty(), Seq::empty())
    } else {
        let (closed, open) = split_scan(s.drop_last());
        if s.last() == BAR {
            (closed.push(open), Seq::empty())
        } else {
            (closed, open.push(s.last()))
        }
    }
}

/// The parts of `s` between the `|` separators.
pub open spec fn bar_parts(s: Seq<u8>) -> Seq<Seq<u8>> {
    split_scan(s).0.push(split_scan(s).1)
}

/// The number that part `p` spells in canonical decimal (one digit, or two
/// without a leading zero), or -1 where it spells none.
pub open spec fn member_value(p: Seq<u8>) -> int {
    if p.len() == 1 && is_digit(p[0]) {
        digit_value(p[0])
    } else if p.len() == 2 && DIGIT_ZERO + 1 <= p[0] <= DIGIT_ZERO + 9 && is_digit(p[1]) {
        10 * digit_value(p[0]) + digit_value(p[1])
    } else {
        -1
    }
}

/// The numbers that the composite bet `s` names, one per part.
pub open spec fn members(s: Seq<u8>) -> Seq<int> {
    member_values(bar_parts(s))
}

/// The number that each part spells.
pub open spec fn member_values(ps: Seq<Seq<u8>>) -> Seq<int> {
    ps.map_values(|p: Seq<u8>| member_value(p))
}

/// Whether `n` is a number of the wheel.
pub open spec fn is_wheel_number(n: int) -> bool {
    0 <= n <= TOP_NUMBER
}

/// Whether every member is a number of the wheel.
pub open spec fn all_wheel_numbers(ns: Seq<int>) -> bool {
    forall|i: int| 0 <= i < ns.len() ==> is_wheel_number(#[trigger] ns[i])
}

/// Two neighbouring numbers: apart by one, by a row (three), or the pair 0 and 2.
pub open spec fn is_split(ns: Seq<int>) -> bool {
    let d = if ns[0] >= ns[1] { ns[0] - ns[1] } else { ns[1] - ns[0] };
    d == 1 || d == 3 || (d == 2 && ns.contains(0) && ns.contains(2))
}

/// The members hold row `q` (counting from 0) of the table: `3q+1, 3q+2, 3q+3`.
pub open spec fn street_at(ns: Seq<int>, q: int) -> bool {
    ns.contains(3 * q + 1) && ns.contains(3 * q + 2) && ns.contains(3 * q + 3)
}

/// The members form one of the twelve rows.
pub open spec fn is_street(ns: Seq<int>) -> bool {
    exists|q: int| 0 <= q < 12 && #[trigger] street_at(ns, q)
}

/// The members hold the 2×2 block whose smallest number is `c`.
pub open spec fn corner_at(ns: Seq<int>, c: int) -> bool {
    ns.contains(c) && ns.contains(c + 1) && ns.contains(c + 3) && ns.contains(c + 4)
}

/// The members form one of the 2×2 blocks of the table.
pub open spec fn is_corner(ns: Seq<int>) -> bool {
    exists|c: int| 1 <= c <= 32 && c % 3 != 0 && #[trigger] corner_at(ns, c)
}

/// The members hold rows `q` and `q + 1`.
pub open spec fn six_line_at(ns: Seq<int>, q: int) -> bool {
    street_at(ns, q) && street_at(ns, q + 1)
}

/// The members form one of the eleven pairs of adjacent rows.
pub open spec fn is_six_line(ns: Seq<int>) -> bool {
    exists|q: int| 0 <= q < 11 && #[trigger] six_line_at(ns, q)
}

/// The members hold every third number from `c` on, twelve in all.
pub open spec fn column_at(ns: Seq<int>, c: int) -> bool {
    forall|k: int| 0 <= k < 12 ==> #[trigger] ns.contains(c + 3 * k)
}

/// The members form one of the three columns.
pub open spec fn is_column(ns: Seq<int>) -> bool {
    exists|c: int| 1 <= c <= 3 && #[trigger] column_at(ns, c)
}

/// The multiplier of a grouping of `count` numbers; 0 where the table has none.
pub open spec fn group_multiplier(count: int) -> int {
    if count == 2 {
        17
    } else if count == 3 {
        11
    } else if count == 4 {
        8
    } else if count == 6 {
        5
    } else if count == 12 {
        2
    } else {
        0
    }
}

/// Whether the members form the grouping that their count calls for.
pub open spec fn is_valid_group(ns: Seq<int>) -> bool {
    &&& all_wheel_numbers(ns)
    &&& ns.len() == 2 ==> is_split(ns)
    &&& ns.len() == 3 ==> is_street(ns)
    &&& ns.len() == 4 ==> is_corner(ns)
    &&& ns.len() == 6 ==> is_six_line(ns)
    &&& ns.len() == 12 ==> is_column(ns)
}

/// The red numbers of the wheel.
pub open spec fn is_red(v: int) -> bool {
    v == 1 || v == 3 || v == 5 || v == 7 || v == 9 || v == 12 || v == 14 || v == 16 || v == 18
        || v == 19 || v == 21 || v == 23 || v == 25 || v == 27 || v == 30 || v == 32 || v == 34
        || v == 36
}

/// The black numbers of the wheel.
pub open spec fn is_black(v: int) -> bool {
    v == 2 || v == 4 || v == 6 || v == 8 || v == 10 || v == 11 || v == 13 || v == 15 || v == 17
        || v == 20 || v == 22 || v == 24 || v == 26 || v == 28 || v == 29 || v == 31 || v == 33
        || v == 35
}

/// The multiplier of a bet that pays `m` when `won` holds.
pub open spec fn pays_if(won: bool, m: int) -> int {
    if won {
        m
    } else {
        0
    }
}

/// The stake multiplier that the bet named `s` earns when the wheel stops on `v`,
/// or `None` where `s` is a malformed grouping of numbers.
pub open spec fn roulette_payout(s: Seq<u8>, v: int) -> Option<int> {
    if s == decimal(v) {
        Some(35)
    } else if s.contains(BAR) {
        let ns = members(s);
        if group_multiplier(ns.len() as int) == 0 {
            Some(0)
        } else if is_valid_group(ns) {
            Some(pays_if(ns.contains(v), group_multiplier(ns.len() as int)))
        } else {
            None
        }
    } else if s == "1st_12".spec_bytes() {
        Some(pays_if(1 <= v <= 12, 2))
    } else if s == "2nd_12".spec_bytes() {
        Some(pays_if(13 <= v <= 24, 2))
    } else if s == "3rd_12".spec_bytes() {
        Some(pays_if(25 <= v <= 36, 2))
    } else if s == "low".spec_bytes() {
        Some(pays_if(1 <= v <= 18, 1))
    } else if s == "high".spec_bytes() {
        Some(pays_if(19 <= v <= 36, 1))
    } else if s == "even".spec_bytes() {
        Some(pays_if(v != 0 && v % 2 == 0, 1))
    } else if s == "odd".spec_bytes() {
        Some(pays_if(v % 2 == 1, 1))
    } else if s == "red".spec_bytes() {
        Some(pays_if(is_red(v), 1))
    } else if s == "black".spec_bytes() {
        Some(pays_if(is_black(v), 1))
    } else {
        Some(0)
    }
}

/// The members as mathematical integers.
pub open spec fn numbers(v: Seq<i32>) -> Seq<int> {
    v.map_values(|x: i32| x as int)
}

/// Reads the part `s[lo..hi]` as a member (see `member_value`).
fn member_at(s: &[u8], lo: usize, hi: usize) -> (r: i32)
    requires
        lo <= hi <= s@.len(),
    ensures
        r == member_value(s@.subrange(lo as int, hi as int)),
{
    let ghost p = s@.subrange(lo as int, hi as int);
    if hi - lo == 1 && DIGIT_ZERO <= s[lo] && s[lo] <= DIGIT_ZERO + 9 {
        assert(p[0] == s@[lo as int]);
        (s[lo] - DIGIT_ZERO) as i32
    } else if hi - lo == 2 && DIGIT_ZERO + 1 <= s[lo] && s[lo] <= DIGIT_ZERO + 9 && DIGIT_ZERO
        <= s[lo + 1] && s[lo + 1] <= DIGIT_ZERO + 9 {
        assert(p[0] == s@[lo as int] && p[1] == s@[lo + 1]);
        10 * ((s[lo] - DIGIT_ZERO) as i32) + (s[lo + 1] - DIGIT_ZERO) as i32
    } else {
        assert(hi - lo == 1 ==> p[0] == s@[lo as int]);
        assert(hi - lo == 2 ==> p[0] == s@[lo as int] && p[1] == s@[lo + 1]);
        -1
    }
}

/// Reads the members of the composite bet `s`, one per `|`-separated part.
fn read_members(s: &[u8]) -> (r: Vec<i32>)
    ensures
        numbers(r@) == members(s@),
{
    let mut vals: Vec<i32> = Vec::new();
    let mut start: usize = 0;
    let mut i: usize = 0;
    while i < s.len()
        invariant
            start <= i <= s@.len(),
            split_scan(s@.subrange(0, i as int)).1 == s@.subrange(start as int, i as int),
            numbers(vals@) == member_values(split_scan(s@.subrange(0, i as int)).0),
        decreases s@.len() - i,
    {
        let ghost prev = s@.subrange(0, i as int);
        let ghost next = s@.subrange(0, i + 1);
        assert(next.drop_last() == prev);
        assert(next.last() == s@[i as int]);
        if s[i] == BAR {
            let v = member_at(s, start, i);
            let ghost before = vals@;
            vals.push(v);
            assert(split_scan(next).0 == split_scan(prev).0.push(split_scan(prev).1));
            assert(numbers(before).len() == before.len());
            assert(member_values(split_scan(prev).0).len() == split_scan(prev).0.len());
            assert(numbers(vals@).len() == member_values(split_scan(next).0).len());
            assert forall|j: int| 0 <= j < vals@.len() implies numbers(vals@)[j] == member_values(
                split_scan(next).0,
            )[j] by {
                if j < before.len() {
                    assert(numbers(before)[j] == member_values(split_scan(prev).0)[j]);
                    assert(vals@[j] == before[j]);
                } else {
                    assert(split_scan(next).0[j] == split_scan(prev).1);
                }
            }
            assert(numbers(vals@) =~= member_values(split_scan(next).0));
            start = i + 1;
            assert(s@.subrange(start as int, i + 1) =~= Seq::<u8>::empty());
        } else {
            assert(s@.subrange(start as int, i + 1) =~= s@.subrange(start as int, i as int).push(
                s@[i as int],
            ));
        }
        i = i + 1;
    }
    assert(s@.subrange(0, s@.len() as int) == s@);
    let v = member_at(s, start, i);
    let ghost before = vals@;
    vals.push(v);
    assert(numbers(before).len() == before.len());
    assert(member_values(split_scan(s@).0).len() == split_scan(s@).0.len());
    assert(numbers(vals@).len() == members(s@).len());
    assert forall|j: int| 0 <= j < vals@.len() implies numbers(vals@)[j] == members(s@)[j] by {
        if j < before.len() {
            assert(numbers(before)[j] == member_values(split_scan(s@).0)[j]);
            assert(vals@[j] == before[j]);
        } else {
            assert(bar_parts(s@)[j] == split_scan(s@).1);
        }
    }
    assert(numbers(vals@) =~= members(s@));
    vals
}

/// Tests whether `s` holds a `|`.
fn has_bar(s: &[u8]) -> (r: bool)
    ensures
        r == s@.contains(BAR),
{
    let mut i: usize = 0;
    while i < s.len()
        invariant
            0 <= i <= s@.len(),
            forall|j: int| 0 <= j < i ==> s@[j] != BAR,
        decreases s@.len() - i,
    {
        if s[i] == BAR {
            return true;
        }
        i = i + 1;
    }
    false
}

/// Tests whether `n` is among the members `ns`.
fn holds(ns: &Vec<i32>, n: i32) -> (r: bool)
    ensures
        r == numbers(ns@).contains(n as int),
{
    let mut i: usize = 0;
    while i < ns.len()
        invariant
            0 <= i <= ns@.len(),
            forall|j: int| 0 <= j < i ==> ns@[j] != n,
        decreases ns@.len() - i,
    {
        if ns[i] == n {
            assert(numbers(ns@)[i as int] == n as int);
            return true;
        }
        i = i + 1;
    }
    assert forall|j: int| 0 <= j < numbers(ns@).len() implies numbers(ns@)[j] != n as int by {
        assert(numbers(ns@)[j] == ns@[j] as int);
    }
    false
}

/// Tests `is_split` on two members.
fn check_split(ns: &Vec<i32>) -> (r: bool)
    requires
        ns@.len() == 2,
        all_wheel_numbers(numbers(ns@)),
    ensures
        r == is_split(numbers(ns@)),
{
    assert(numbers(ns@)[0] == ns@[0] as int && numbers(ns@)[1] == ns@[1] as int);
    assert(is_wheel_number(numbers(ns@)[0]) && is_wheel_number(numbers(ns@)[1]));
    let d: i32 = if ns[0] >= ns[1] { ns[0] - ns[1] } else { ns[1] - ns[0] };
    d == 1 || d == 3 || (d == 2 && holds(ns, 0) && holds(ns, 2))
}

/// Tests `is_street`.
fn check_street(ns: &Vec<i32>) -> (r: bool)
    ensures
        r == is_street(numbers(ns@)),
{
    let mut q: i32 = 0;
    while q < 12
        invariant
            0 <= q <= 12,
            forall|k: int| 0 <= k < q ==> !#[trigger] street_at(numbers(ns@), k),
        decreases 12 - q,
    {
        if holds(ns, 3 * q + 1) && holds(ns, 3 * q + 2) && holds(ns, 3 * q + 3) {
            assert(street_at(numbers(ns@), q as int));
            return true;
        }
        q = q + 1;
    }
    false
}

/// Tests `is_corner`.
fn check_corner(ns: &Vec<i32>) -> (r: bool)
    ensures
        r == is_corner(numbers(ns@)),
{
    let mut c: i32 = 1;
    while c <= 32
        invariant
            1 <= c <= 33,
            forall|k: int| 1 <= k < c && k % 3 != 0 ==> !#[trigger] corner_at(numbers(ns@), k),
        decreases 33 - c,
    {
        if c % 3 != 0 && holds(ns, c) && holds(ns, c + 1) && holds(ns, c + 3) && holds(ns, c + 4) {
            assert(corner_at(numbers(ns@), c as int));
            return true;
        }
        c = c + 1;
    }
    false
}

/// Tests `is_six_line`.
fn check_six_line(ns: &Vec<i32>) -> (r: bool)
    ensures
        r == is_six_line(numbers(ns@)),
{
    let mut q: i32 = 0;
    while q < 11
        invariant
            0 <= q <= 11,
            forall|k: int| 0 <= k < q ==> !#[trigger] six_line_at(numbers(ns@), k),
        decreases 11 - q,
    {
        if holds(ns, 3 * q + 1) && holds(ns, 3 * q + 2) && holds(ns, 3 * q + 3) && holds(
            ns,
            3 * q + 4,
        ) && holds(ns, 3 * q + 5) && holds(ns, 3 * q + 6) {
            assert(six_line_at(numbers(ns@), q as int));
            return true;
        }
        q = q + 1;
    }
    false
}

/// Tests whether the members hold every third number from `c` on, twelve in all.
fn check_column_at(ns: &Vec<i32>, c: i32) -> (r: bool)
    requires
        1 <= c <= 3,
    ensures
        r == column_at(numbers(ns@), c as int),
{
    let mut k: i32 = 0;
    while k < 12
        invariant
            0 <= k <= 12,
            1 <= c <= 3,
            forall|j: int| 0 <= j < k ==> #[trigger] numbers(ns@).contains(c + 3 * j),
        decreases 12 - k,
    {
        if !holds(ns, c + 3 * k) {
            return false;
        }
        k = k + 1;
    }
    true
}

/// Tests `is_column`.
fn check_column(ns: &Vec<i32>) -> (r: bool)
    ensures
        r == is_column(numbers(ns@)),
{
    let mut c: i32 = 1;
    while c <= 3
        invariant
            1 <= c <= 4,
            forall|k: int| 1 <= k < c ==> !#[trigger] column_at(numbers(ns@), k),
        decreases 4 - c,
    {
        if check_column_at(ns, c) {
            return true;
        }
        c = c + 1;
    }
    false
}

/// Tests whether every member is a number of the wheel.
fn check_wheel_numbers(ns: &Vec<i32>) -> (r: bool)
    ensures
        r == all_wheel_numbers(numbers(ns@)),
{
    let mut i: usize = 0;
    while i < ns.len()
        invariant
            0 <= i <= ns@.len(),
            forall|j: int| 0 <= j < i ==> 0 <= #[trigger] ns@[j] <= TOP_NUMBER,
        decreases ns@.len() - i,
    {
        if ns[i] < 0 || ns[i] > TOP_NUMBER as i32 {
            assert(numbers(ns@)[i as int] == ns@[i as int] as int);
            return false;
        }
        i = i + 1;
    }
    assert forall|j: int| 0 <= j < numbers(ns@).len() implies is_wheel_number(
        #[trigger] numbers(ns@)[j],
    ) by {
        assert(numbers(ns@)[j] == ns@[j] as int);
    }
    true
}

/// Tests `is_valid_group`.
pub fn check_group(ns: &Vec<i32>) -> (r: bool)
    ensures
        r == is_valid_group(numbers(ns@)),
{
    if !check_wheel_numbers(ns) {
        return false;
    }
    let n = ns.len();
    if n == 2 {
        check_split(ns)
    } else if n == 3 {
        check_street(ns)
    } else if n == 4 {
        check_corner(ns)
    } else if n == 6 {
        check_six_line(ns)
    } else if n == 12 {
        check_column(ns)
    } else {
        true
    }
}

/// The multiplier of a grouping of `count` numbers.
fn count_multiplier(count: usize) -> (r: u32)
    ensures
        r == group_multiplier(count as int),
{
    if count == 2 {
        17
    } else if count == 3 {
        11
    } else if count == 4 {
        8
    } else if count == 6 {
        5
    } else if count == 12 {
        2
    } else {
        0
    }
}

/// Tests `is_red`.
fn red(v: u8) -> (r: bool)
    ensures
        r == is_red(v as int),
{
    v == 1 || v == 3 || v == 5 || v == 7 || v == 9 || v == 12 || v == 14 || v == 16 || v == 18
        || v == 19 || v == 21 || v == 23 || v == 25 || v == 27 || v == 30 || v == 32 || v == 34
        || v == 36
}

/// Tests `is_black`.
fn black(v: u8) -> (r: bool)
    ensures
        r == is_black(v as int),
{
    v == 2 || v == 4 || v == 6 || v == 8 || v == 10 || v == 11 || v == 13 || v == 15 || v == 17
        || v == 20 || v == 22 || v == 24 || v == 26 || v == 28 || v == 29 || v == 31 || v == 33
        || v == 35
}

/// `m` where `won` holds, else 0.
fn pay(won: bool, m: u32) -> (r: u32)
    ensures
        r == pays_if(won, m as int),
{
    if won {
        m
    } else {
        0
    }
}

/// The stake multiplier that the bet named `bet` earns when the wheel stops on
/// `roulette_value`. A grouping of numbers whose count the table knows must have
/// the table's shape, else the bet is refused; any other unknown name pays 0.
pub fn check_point_roulette(bet: &str, roulette_value: u8) -> (r: Result<u32, GameError>)
    requires
        roulette_value <= TOP_NUMBER,
    ensures
        match roulette_payout(bet.spec_bytes(), roulette_value as int) {
            Some(m) => r == Ok::<u32, GameError>(m as u32),
            None => r == Err::<u32, GameError>(GameError::InvalidCompositeBet),
        },
{
    let s = bet.as_bytes();
    let v = roulette_value;
    if spells(s, v) {
        Ok(35)
    } else if has_bar(s) {
        let ns = read_members(s);
        let m = count_multiplier(ns.len());
        if m == 0 {
            Ok(0)
        } else if !check_group(&ns) {
            Err(GameError::InvalidCompositeBet)
        } else {
            Ok(pay(holds(&ns, v as i32), m))
        }
    } else if same_bytes(s, "1st_12".as_bytes()) {
        Ok(pay(1 <= v && v <= 12, 2))
    } else if same_bytes(s, "2nd_12".as_bytes()) {
        Ok(pay(13 <= v && v <= 24, 2))
    } else if same_bytes(s, "3rd_12".as_bytes()) {
        Ok(pay(25 <= v && v <= 36, 2))
    } else if same_bytes(s, "low".as_bytes()) {
        Ok(pay(1 <= v && v <= 18, 1))
    } else if same_bytes(s, "high".as_bytes()) {
        Ok(pay(19 <= v && v <= 36, 1))
    } else if same_bytes(s, "even".as_bytes()) {
        Ok(pay(v != 0 && v % 2 == 0, 1))
    } else if same_bytes(s, "odd".as_bytes()) {
        Ok(pay(v % 2 == 1, 1))
    } else if same_bytes(s, "red".as_bytes()) {
        Ok(pay(red(v), 1))
    } else if same_bytes(s, "black".as_bytes()) {
        Ok(pay(black(v), 1))
    } else {
        Ok(0)
    }
}

} // verus!
