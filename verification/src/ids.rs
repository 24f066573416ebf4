//! Identifiers of responses, messages and calls.
//!
//! An identifier is made of a prefix, the time and a running number: `call_1700000000000_7`.

use vstd::prelude::*;

use crate::text;

verus! {

/// Where identifiers come from: a running number, and the clock.
///
/// The clock answers anew each time it is asked. What it said so far is kept as ghost state, so
/// that every identifier is known exactly once the readings are.
pub struct IdSource {
    sequence: u64,
    readings: Ghost<Seq<u128>>,
}

/// The readings of the clock that a stretch of work asked for, and the running number at its
/// beginning.
pub struct Issue {
    pub first: u64,
    pub readings: Seq<u128>,
}

/// The running number that comes `k` steps after `first`. After the largest comes zero.
pub open spec fn nth_sequence(first: u64, k: nat) -> u64 {
    ((first + k) % 0x1_0000_0000_0000_0000) as u64
}

/// The identifier that is made of a prefix, the time in milliseconds and a running number.
pub open spec fn item_id_text(prefix: Seq<char>, timestamp_ms: u128, sequence: u64) -> Seq<char> {
    prefix + "_"@ + text::decimal(timestamp_ms as nat) + "_"@ + text::decimal(sequence as nat)
}

impl Issue {
    /// The identifier with number `k`, counted from zero.
    pub open spec fn id(self, prefix: Seq<char>, k: int) -> Seq<char> {
        item_id_text(prefix, self.readings[k], nth_sequence(self.first, k as nat))
    }
}

/// What was issued while a source went from one state to another.
pub open spec fn issued(before: IdSource, after: IdSource) -> Issue {
    Issue {
        first: before.next_sequence(),
        readings: after.readings().skip(before.readings().len() as int),
    }
}

/// Whether a source went from one state to another by issuing `n` identifiers.
pub open spec fn advanced(before: IdSource, after: IdSource, n: nat) -> bool {
    &&& after.readings().len() == before.readings().len() + n
    &&& before.readings() == after.readings().take(before.readings().len() as int)
    &&& after.next_sequence() == nth_sequence(before.next_sequence(), n)
}

/// A source that issues nothing has advanced by nothing.
pub proof fn lemma_advanced_none(source: IdSource)
    ensures
        advanced(source, source, 0),
{
    assert(source.readings() =~= source.readings().take(source.readings().len() as int));
}

/// Steps of the running number add up.
proof fn lemma_nth_sequence(first: u64, m: nat, n: nat)
    ensures
        nth_sequence(nth_sequence(first, m), n) == nth_sequence(first, m + n),
{
    let range = 0x1_0000_0000_0000_0000int;
    vstd::arithmetic::div_mod::lemma_add_mod_noop(first + m, n as int, range);
    vstd::arithmetic::div_mod::lemma_add_mod_noop((first + m) % range, n as int, range);
    vstd::arithmetic::div_mod::lemma_mod_twice(first + m, range);
}

/// Two stretches of work, one after the other, are one stretch.
pub proof fn lemma_advanced_twice(a: IdSource, b: IdSource, c: IdSource, m: nat, n: nat)
    requires
        advanced(a, b, m),
        advanced(b, c, n),
    ensures
        advanced(a, c, m + n),
        forall|prefix: Seq<char>, k: int|
            0 <= k < m ==> #[trigger] issued(a, c).id(prefix, k) == issued(a, b).id(prefix, k),
        forall|prefix: Seq<char>, k: int|
            0 <= k < n ==> #[trigger] issued(b, c).id(prefix, k) == issued(a, c).id(prefix, m + k),
{
    let (ra, rb, rc) = (a.readings(), b.readings(), c.readings());
    assert(forall|i: int| 0 <= i < ra.len() ==> #[trigger] ra[i] == rb.take(ra.len() as int)[i]);
    assert(forall|i: int| 0 <= i < rb.len() ==> #[trigger] rb[i] == rc.take(rb.len() as int)[i]);
    assert(ra =~= rc.take(ra.len() as int));
    lemma_nth_sequence(a.next_sequence(), m, n);
    assert forall|prefix: Seq<char>, k: int| 0 <= k < m implies #[trigger] issued(a, c).id(
        prefix,
        k,
    ) == issued(a, b).id(prefix, k) by {
        assert(issued(a, c).readings[k] == rc[ra.len() + k]);
        assert(issued(a, b).readings[k] == rb[ra.len() + k]);
    }
    assert forall|prefix: Seq<char>, k: int| 0 <= k < n implies #[trigger] issued(b, c).id(
        prefix,
        k,
    ) == issued(a, c).id(prefix, m + k) by {
        assert(issued(b, c).readings[k] == rc[rb.len() + k]);
        assert(issued(a, c).readings[m + k] == rc[ra.len() + m + k]);
        lemma_nth_sequence(a.next_sequence(), m, k as nat);
    }
}

impl IdSource {
    /// The running number that the next identifier gets.
    pub closed spec fn next_sequence(self) -> u64 {
        self.sequence
    }

    /// What the clock said so far, in milliseconds since the Unix epoch.
    pub closed spec fn readings(self) -> Seq<u128> {
        self.readings@
    }

    /// A source that begins with the running number 1.
    pub fn new() -> (source: IdSource)
        ensures
            source.next_sequence() == 1,
            source.readings() == Seq::<u128>::empty(),
    {
        IdSource { sequence: 1, readings: Ghost(Seq::empty()) }
    }
}

impl Default for IdSource {
    fn default() -> (source: Self)
        ensures
            source.next_sequence() == 1,
            source.readings() == Seq::<u128>::empty(),
    {
        IdSource::new()
    }
}

/// A point in time.
#[verifier::external_type_specification]
#[verifier::external_body]
pub struct ExSystemTime(std::time::SystemTime);

/// The whole milliseconds that a `SystemTime` lies behind the Unix epoch; `None` where it lies
/// before it.
pub uninterp spec fn epoch_millis(time: std::time::SystemTime) -> Option<u128>;

/// The whole milliseconds that a `Duration` holds.
pub uninterp spec fn duration_millis(duration: std::time::Duration) -> u128;

/// `SystemTime::now` reads the clock. Nothing is claimed of what the clock says.
pub assume_specification[ std::time::SystemTime::now ]() -> std::time::SystemTime
;

/// `SystemTime::duration_since`, asked for the time since the Unix epoch, gives it, and reports an
/// error where the time lies before the epoch.
#[verifier::external_body]
fn since_epoch(time: &std::time::SystemTime) -> (since: Option<std::time::Duration>)
    ensures
        match since {
            Some(since) => epoch_millis(*time) == Some(duration_millis(since)),
            None => epoch_millis(*time) is None,
        },
{
    time.duration_since(std::time::UNIX_EPOCH).ok()
}

/// `Duration::as_millis` gives the whole milliseconds that a duration holds.
pub assume_specification[ std::time::Duration::as_millis ](duration: &std::time::Duration)
    -> (millis: u128)
    ensures
        millis == duration_millis(*duration),
;

/// The time in milliseconds since the Unix epoch. A time before it counts as zero.
pub open spec fn time_stamp(time: std::time::SystemTime) -> u128 {
    match epoch_millis(time) {
        Some(millis) => millis,
        None => 0,
    }
}

/// Whether the clock can have said a time in milliseconds.
pub open spec fn clock_reading(timestamp_ms: u128) -> bool {
    exists|time: std::time::SystemTime| timestamp_ms == #[trigger] time_stamp(time)
}

/// Gives a time in milliseconds since the Unix epoch. A time before it counts as zero.
pub fn timestamp_millis(time: &std::time::SystemTime) -> (millis: u128)
    ensures
        millis == time_stamp(*time),
{
    match since_epoch(time) {
        Some(since) => since.as_millis(),
        None => 0,
    }
}

/// The identifier that is made of a prefix, the time in milliseconds and a running number.
pub fn item_id(prefix: &str, timestamp_ms: u128, sequence: u64) -> (id: String)
    ensures
        id@ == item_id_text(prefix@, timestamp_ms, sequence),
{
    let mut id = prefix.to_owned();
    id.push_str("_");
    id.push_str(text::decimal_text(timestamp_ms).as_str());
    id.push_str("_");
    id.push_str(text::decimal_text(sequence as u128).as_str());
    id
}

/// Issues an identifier with the given prefix.
///
/// The clock counts as zero where it stands before the Unix epoch.
pub fn next_item_id(prefix: &str, ids: &mut IdSource) -> (id: String)
    ensures
        advanced(*old(ids), *final(ids), 1),
        id@ == issued(*old(ids), *final(ids)).id(prefix@, 0),
        clock_reading(issued(*old(ids), *final(ids)).readings[0]),
{
    let sequence = ids.sequence;
    ids.sequence = sequence.wrapping_add(1);
    let now = std::time::SystemTime::now();
    let timestamp_ms: u128 = timestamp_millis(&now);
    proof {
        ids.readings@ = ids.readings@.push(timestamp_ms);
        assert(ids.readings().take(old(ids).readings().len() as int) =~= old(ids).readings());
    }
    item_id(prefix, timestamp_ms, sequence)
}

/// Issues an identifier for a response.
pub fn next_response_id(ids: &mut IdSource) -> (id: String)
    ensures
        advanced(*old(ids), *final(ids), 1),
        id@ == issued(*old(ids), *final(ids)).id("resp"@, 0),
        clock_reading(issued(*old(ids), *final(ids)).readings[0]),
{
    next_item_id("resp", ids)
}

/// Issues an identifier for a call.
pub fn next_call_id(ids: &mut IdSource) -> (id: String)
    ensures
        advanced(*old(ids), *final(ids), 1),
        id@ == issued(*old(ids), *final(ids)).id("call"@, 0),
        clock_reading(issued(*old(ids), *final(ids)).readings[0]),
{
    next_item_id("call", ids)
}

/// Identifiers with different running numbers are different, whatever their prefixes and times.
pub proof fn law_ids_differ(
    prefix1: Seq<char>,
    time1: u128,
    sequence1: u64,
    prefix2: Seq<char>,
    time2: u128,
    sequence2: u64,
)
    requires
        sequence1 != sequence2,
    ensures
        item_id_text(prefix1, time1, sequence1) != item_id_text(prefix2, time2, sequence2),
{
    reveal_strlit("_");
    let id1 = item_id_text(prefix1, time1, sequence1);
    let id2 = item_id_text(prefix2, time2, sequence2);
    let digits1 = text::decimal(sequence1 as nat);
    let digits2 = text::decimal(sequence2 as nat);
    text::lemma_decimal_digits(sequence1 as nat);
    text::lemma_decimal_digits(sequence2 as nat);
    if id1 == id2 {
        let n = id1.len() as int;
        assert(id1[n - digits1.len() - 1] == '_');
        assert(id2[n - digits2.len() - 1] == '_');
        assert(forall|i: int| 0 <= i < digits1.len() ==> id1[n - digits1.len() + i] == #[trigger] digits1[i]);
        assert(forall|i: int| 0 <= i < digits2.len() ==> id2[n - digits2.len() + i] == #[trigger] digits2[i]);
        if digits1.len() < digits2.len() {
            let i = digits2.len() - digits1.len() - 1;
            assert(digits2[i] == '_');
        } else if digits2.len() < digits1.len() {
            let i = digits1.len() - digits2.len() - 1;
            assert(digits1[i] == '_');
        } else {
            assert(digits1 =~= digits2);
            text::lemma_decimal_injective(sequence1 as nat, sequence2 as nat);
        }
    }
}

/// The identifiers that one stretch of work issues are different from each other, as long as the
/// running number does not come round.
pub proof fn law_issued_ids_differ(
    issue: Issue,
    prefix1: Seq<char>,
    k1: int,
    prefix2: Seq<char>,
    k2: int,
)
    requires
        0 <= k1 < k2 < 0x1_0000_0000_0000_0000,
    ensures
        issue.id(prefix1, k1) != issue.id(prefix2, k2),
{
    law_ids_differ(
        prefix1,
        issue.readings[k1],
        nth_sequence(issue.first, k1 as nat),
        prefix2,
        issue.readings[k2],
        nth_sequence(issue.first, k2 as nat),
    );
}

/// An identifier is its prefix, the time and the running number, with underscores in between.
pub proof fn law_parts_of_an_identifier(prefix: Seq<char>, timestamp_ms: u128, sequence: u64)
    ensures
        item_id_text(prefix, timestamp_ms, sequence) == prefix + seq!['_'] + text::decimal(
            timestamp_ms as nat,
        ) + seq!['_'] + text::decimal(sequence as nat),
{
    reveal_strlit("_");
    assert("_"@ =~= seq!['_']);
}

/// Running numbers count up by one, and begin anew at zero behind the largest. Each identifier has
/// the reading of the clock that was made for it.
pub proof fn law_running_numbers_count_up(issue: Issue, prefix: Seq<char>, k: nat)
    ensures
        nth_sequence(issue.first, 0) == issue.first,
        nth_sequence(issue.first, k) < u64::MAX ==> nth_sequence(issue.first, k + 1)
            == nth_sequence(issue.first, k) + 1,
        nth_sequence(issue.first, k) == u64::MAX ==> nth_sequence(issue.first, k + 1) == 0,
        issue.id(prefix, k as int) == item_id_text(
            prefix,
            issue.readings[k as int],
            nth_sequence(issue.first, k),
        ),
{
    lemma_nth_sequence(issue.first, k, 1);
}

/// The time of an identifier is the whole milliseconds since the Unix epoch, and zero before it.
pub proof fn law_times_count_from_the_epoch(time: std::time::SystemTime)
    ensures
        epoch_millis(time) matches Some(millis) ==> time_stamp(time) == millis,
        epoch_millis(time) is None ==> time_stamp(time) == 0,
{
}

} // verus!
