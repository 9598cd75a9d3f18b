//! Putting the reward choices of a squad together.

use vstd::prelude::*;
#[allow(unused_imports)]
use vstd::utf8::{
    decode_utf8, decode_utf8_encode_utf8, encode_utf8, encode_utf8_decode_utf8,
    encode_utf8_valid_utf8, valid_utf8,
};

use crate::bytes::copy_range;
use crate::game_log::decode_text;
use crate::keyed::{NameMap, NameSet};
use crate::text::{chars_of, position_of, same_text};

verus! {

/// Exchanges two elements.
fn exchange(list: &mut [String], i: usize, j: usize)
    requires
        i < j < old(list)@.len(),
    ensures
        final(list)@ == old(list)@.update(i as int, old(list)@[j as int]).update(
            j as int,
            old(list)@[i as int],
        ),
{
    let (left, right) = list.split_at_mut(j);
    std::mem::swap(&mut left[i], &mut right[0]);
}

/// `list` with the elements from `start` up to `end` turned round.
pub open spec fn turned(list: Seq<String>, start: int, end: int) -> Seq<String> {
    Seq::new(
        list.len(),
        |k: int|
            if start <= k < end {
                list[start + end - 1 - k]
            } else {
                list[k]
            },
    )
}

/// Turns round the elements from `start` up to `end`.
fn turn_round(list: &mut [String], start: usize, end: usize)
    requires
        start <= end <= old(list)@.len(),
    ensures
        final(list)@ == turned(old(list)@, start as int, end as int),
{
    let ghost all = list@;
    let mut low: usize = start;
    let mut high: usize = end;
    while low < high
        invariant
            start <= low <= high + 1,
            high <= end <= all.len(),
            low - start == end - high,
            list@.len() == all.len(),
            forall|k: int|
                0 <= k < all.len() ==> #[trigger] list@[k] == (if start <= k < low || high <= k < end {
                    all[start + end - 1 - k]
                } else {
                    all[k]
                }),
        decreases high - low + 1,
    {
        high -= 1;
        if low < high {
            exchange(list, low, high);
        }
        low += 1;
    }
    assert(list@ =~= turned(all, start as int, end as int));
}

/// `choices` beginning with the first one named `local`, those before it moved to the end. Where
/// none has that name they stay as they are.
pub open spec fn is_rotated(choices: Seq<String>, local: Seq<char>, rotated: Seq<String>) -> bool {
    ||| exists|i: int|
        0 <= i < choices.len() && (#[trigger] choices[i])@ == local && (forall|j: int|
            0 <= j < i ==> (#[trigger] choices[j])@ != local) && rotated == choices.skip(i)
            + choices.take(i)
    ||| (forall|j: int| 0 <= j < choices.len() ==> (#[trigger] choices[j])@ != local) && rotated
        == choices
}

/// Turns the choices so that the local player's comes first.
pub fn rotate_choices_to_local(choices: &mut [String], local_name: &str)
    ensures
        is_rotated(old(choices)@, local_name@, final(choices)@),
{
    let ghost before = choices@;
    let found = position_of(choices, local_name);
    if let Some(index) = found {
        let len = choices.len();
        turn_round(choices, 0, index);
        turn_round(choices, index, len);
        turn_round(choices, 0, len);
        assert(choices@ =~= before.skip(index as int) + before.take(index as int));
    }
}

/// Turning the choices neither loses nor adds one, and puts the local player's first if it is
/// among them.
pub proof fn law_rotation_keeps_the_choices(
    choices: Seq<String>,
    local: Seq<char>,
    rotated: Seq<String>,
)
    requires
        is_rotated(choices, local, rotated),
    ensures
        rotated.to_multiset() == choices.to_multiset(),
        (exists|i: int| 0 <= i < choices.len() && (#[trigger] choices[i])@ == local)
            ==> rotated[0]@ == local,
{
    if exists|i: int|
        0 <= i < choices.len() && (#[trigger] choices[i])@ == local && (forall|j: int|
            0 <= j < i ==> (#[trigger] choices[j])@ != local) && rotated == choices.skip(i)
            + choices.take(i) {
        let i = choose|i: int|
            0 <= i < choices.len() && (#[trigger] choices[i])@ == local && (forall|j: int|
                0 <= j < i ==> (#[trigger] choices[j])@ != local) && rotated == choices.skip(i)
                + choices.take(i);
        let front = choices.take(i);
        let back = choices.skip(i);
        assert(choices == front + back);
        vstd::seq_lib::lemma_multiset_commutative(front, back);
        vstd::seq_lib::lemma_multiset_commutative(back, front);
        assert(rotated.to_multiset() =~= choices.to_multiset());
        assert(rotated[0] == choices[i]);
    }
}

/// Whether a path from the game's log names the item of a path from the catalog. The log may name
/// the store entry of an item.
pub open spec fn names_same_reward(log_path: Seq<char>, catalog_path: Seq<char>) -> bool {
    ||| log_path == catalog_path
    ||| exists|suffix: Seq<char>|
        log_path == #[trigger] ("/Lotus/StoreItems"@ + suffix) && catalog_path == "/Lotus"@ + suffix
}

/// Whether `a` from `i` on reads like `b` from `j` on.
fn same_tail(a: &[char], i: usize, b: &[char], j: usize) -> (same: bool)
    requires
        i <= a@.len(),
        j <= b@.len(),
    ensures
        same == (a@.skip(i as int) == b@.skip(j as int)),
{
    if a.len() - i != b.len() - j {
        assert(a@.skip(i as int).len() != b@.skip(j as int).len());
        return false;
    }
    let mut k: usize = 0;
    while k < a.len() - i
        invariant
            i <= a@.len() <= usize::MAX,
            j <= b@.len() <= usize::MAX,
            a@.len() - i == b@.len() - j,
            k <= a@.len() - i,
            forall|n: int| i <= n < i + k ==> #[trigger] a@[n] == b@[n - i + j],
        decreases a@.len() - i - k,
    {
        if a[i + k] != b[j + k] {
            assert(a@.skip(i as int)[k as int] != b@.skip(j as int)[k as int]);
            return false;
        }
        k += 1;
    }
    assert forall|n: int| 0 <= n < a@.len() - i implies #[trigger] a@.skip(i as int)[n] == b@.skip(
        j as int,
    )[n] by {
        assert(a@[i + n] == b@[i + n - i + j]);
    }
    assert(a@.skip(i as int) =~= b@.skip(j as int));
    true
}

/// Whether `text` starts with `lead`.
fn starts_with(text: &[char], lead: &[char]) -> (starts: bool)
    ensures
        starts == (lead@.len() <= text@.len() && text@.take(lead@.len() as int) == lead@),
{
    if lead.len() > text.len() {
        return false;
    }
    let mut k: usize = 0;
    while k < lead.len()
        invariant
            k <= lead@.len() <= text@.len(),
            forall|n: int| 0 <= n < k ==> #[trigger] text@[n] == lead@[n],
        decreases lead@.len() - k,
    {
        if text[k] != lead[k] {
            assert(text@.take(lead@.len() as int)[k as int] != lead@[k as int]);
            return false;
        }
        k += 1;
    }
    assert(text@.take(lead@.len() as int) =~= lead@);
    true
}

/// Whether a path from the game's log names the item of a path from the catalog.
pub fn reward_path_matches(log_path: &str, catalog_path: &str) -> (matches: bool)
    ensures
        matches == names_same_reward(log_path@, catalog_path@),
{
    if same_text(log_path, catalog_path) {
        return true;
    }
    let log = chars_of(log_path);
    let catalog = chars_of(catalog_path);
    let store = chars_of("/Lotus/StoreItems");
    let lotus = chars_of("/Lotus");
    let matches = starts_with(log.as_slice(), store.as_slice()) && starts_with(
        catalog.as_slice(),
        lotus.as_slice(),
    ) && same_tail(log.as_slice(), store.len(), catalog.as_slice(), lotus.len());
    proof {
        if matches {
            let suffix = log@.skip(store@.len() as int);
            assert(log@ =~= store@ + suffix);
            assert(catalog@ =~= lotus@ + suffix);
        }
        if names_same_reward(log_path@, catalog_path@) {
            let suffix = choose|suffix: Seq<char>|
                log_path@ == #[trigger] ("/Lotus/StoreItems"@ + suffix) && catalog_path@ == "/Lotus"@
                    + suffix;
            assert(log@.take(store@.len() as int) =~= store@);
            assert(log@.skip(store@.len() as int) =~= suffix);
            assert(catalog@.take(lotus@.len() as int) =~= lotus@);
            assert(catalog@.skip(lotus@.len() as int) =~= suffix);
        }
    }
    matches
}

/// A reward that a squad's relics can drop: how it is called, and the game's own paths for it.
pub struct RewardNeedle {
    pub choice_name: String,
    pub internal_paths: Vec<Vec<u8>>,
}

/// The text that bytes encode; none if they are not UTF-8.
pub open spec fn text_or_nothing(bytes: Seq<u8>) -> Seq<char> {
    if valid_utf8(bytes) {
        decode_utf8(bytes)
    } else {
        Seq::empty()
    }
}

/// Whether a path from the game's log names this reward.
pub open spec fn is_named_by(needle: RewardNeedle, path: Seq<char>) -> bool {
    exists|k: int|
        0 <= k < needle.internal_paths@.len() && names_same_reward(
            path,
            text_or_nothing((#[trigger] needle.internal_paths@[k])@),
        )
}

/// Whether a path from the game's log names this reward.
fn names_needle(needle: &RewardNeedle, path: &str) -> (named: bool)
    ensures
        named == is_named_by(*needle, path@),
{
    let mut k: usize = 0;
    while k < needle.internal_paths.len()
        invariant
            k <= needle.internal_paths@.len(),
            forall|n: int|
                0 <= n < k ==> !names_same_reward(
                    path@,
                    text_or_nothing((#[trigger] needle.internal_paths@[n])@),
                ),
        decreases needle.internal_paths@.len() - k,
    {
        let candidate = match decode_text(needle.internal_paths[k].as_slice()) {
            Some(text) => text,
            None => "",
        };
        proof {
            reveal_strlit("");
            assert(candidate@ =~= text_or_nothing(needle.internal_paths@[k as int]@));
        }
        if reward_path_matches(path, candidate) {
            return true;
        }
        k += 1;
    }
    false
}

/// Whether `choice` is what the reward is called that a path from the log names: the first candidate
/// that it names. Without a path, or where it names no candidate, there is no such reward.
pub open spec fn is_choice_of(
    candidates: Seq<RewardNeedle>,
    path: Option<Seq<char>>,
    choice: Option<Seq<char>>,
) -> bool {
    match choice {
        Some(name) => path is Some && exists|i: int|
            0 <= i < candidates.len() && is_named_by(#[trigger] candidates[i], path->0) && name
                == candidates[i].choice_name@ && forall|j: int|
                0 <= j < i ==> !is_named_by(#[trigger] candidates[j], path->0),
        None => path is None || forall|j: int|
            0 <= j < candidates.len() ==> !is_named_by(#[trigger] candidates[j], path->0),
    }
}

/// What the reward is called that the log says the local player got.
pub fn local_choice(candidates: &[RewardNeedle], local_reward_path: Option<&str>) -> (choice: Option<
    String,
>)
    ensures
        is_choice_of(candidates@, opt_str(local_reward_path), crate::text::opt_text(choice)),
{
    match local_reward_path {
        None => None,
        Some(path) => {
            let mut i: usize = 0;
            while i < candidates.len()
                invariant
                    i <= candidates@.len(),
                    local_reward_path == Some(path),
                    forall|j: int| 0 <= j < i ==> !is_named_by(#[trigger] candidates@[j], path@),
                decreases candidates@.len() - i,
            {
                if names_needle(&candidates[i], path) {
                    assert(is_named_by(candidates@[i as int], path@));
                    return Some(candidates[i].choice_name.clone());
                }
                i += 1;
            }
            None
        },
    }
}

/// The views of a list of texts.
pub open spec fn str_texts(list: Seq<&str>) -> Seq<Seq<char>> {
    list.map_values(|s: &str| s@)
}

/// The squad without the local player.
pub open spec fn others(responders: Seq<Seq<char>>, local: Seq<char>) -> Seq<Seq<char>> {
    responders.filter(|r: Seq<char>| r != local)
}

/// The choices of a squad: the local player's first, then those on record of the others, in their
/// order. There are none unless the local player and their choice are known, everyone else is on
/// record, and each responder has exactly one choice.
pub open spec fn assembled(
    responders: Seq<Seq<char>>,
    local_identity: Option<Seq<char>>,
    local_choice: Option<Seq<char>>,
    records: Map<Seq<char>, String>,
) -> Option<Seq<Seq<char>>> {
    match (local_identity, local_choice) {
        (Some(local), Some(choice)) => {
            let rest = others(responders, local);
            if rest.len() + 1 == responders.len() && forall|i: int|
                0 <= i < rest.len() ==> records.contains_key(#[trigger] rest[i]) {
                Some(seq![choice] + rest.map_values(|r: Seq<char>| records[r]@))
            } else {
                None
            }
        },
        _ => None,
    }
}

/// The view of a list of strings that may be missing.
pub open spec fn opt_texts(list: Option<Vec<String>>) -> Option<Seq<Seq<char>>> {
    match list {
        Some(list) => Some(crate::text::texts(list@)),
        None => None,
    }
}

/// The view of a text that may be missing.
pub open spec fn opt_str(text: Option<&str>) -> Option<Seq<char>> {
    match text {
        Some(text) => Some(text@),
        None => None,
    }
}

/// Puts the choices of a squad together from the players' records.
pub fn assemble_player_record_choices(
    responders: &[&str],
    local_identity: Option<&str>,
    local_choice: Option<&str>,
    records: &NameMap<String>,
) -> (choices: Option<Vec<String>>)
    requires
        records.wf(),
    ensures
        opt_texts(choices) == assembled(
            str_texts(responders@),
            opt_str(local_identity),
            opt_str(local_choice),
            records@,
        ),
{
    let (local, choice) = match (local_identity, local_choice) {
        (Some(local), Some(choice)) => (local, choice),
        _ => {
            return None;
        },
    };
    let ghost squad = str_texts(responders@);
    let ghost is_other = |r: Seq<char>| r != local@;
    let ghost value = |r: Seq<char>| records@[r]@;
    let mut choices: Vec<String> = Vec::new();
    choices.push(choice.to_owned());
    let mut i: usize = 0;
    proof {
        reveal(Seq::filter);
        assert(squad.take(0).filter(is_other) =~= Seq::<Seq<char>>::empty());
        assert(crate::text::texts(choices@) =~= seq![choice@] + squad.take(0).filter(
            is_other,
        ).map_values(value));
    }
    while i < responders.len()
        invariant
            i <= responders@.len(),
            records.wf(),
            squad == str_texts(responders@),
            is_other == (|r: Seq<char>| r != local@),
            value == (|r: Seq<char>| records@[r]@),
            forall|k: int|
                0 <= k < squad.take(i as int).filter(is_other).len() ==> records@.contains_key(
                    #[trigger] squad.take(i as int).filter(is_other)[k],
                ),
            crate::text::texts(choices@) == seq![choice@] + squad.take(i as int).filter(
                is_other,
            ).map_values(value),
            local_identity == Some(local),
            local_choice == Some(choice),
        decreases responders@.len() - i,
    {
        let ghost before = squad.take(i as int);
        let ghost held = crate::text::texts(choices@);
        assert(squad[i as int] == responders@[i as int]@);
        assert(squad.take(i + 1) =~= before.push(squad[i as int]));
        proof {
            lemma_filter_push(before, squad[i as int], is_other);
        }
        let responder = responders[i];
        if !same_text(responder, local) {
            match records.get(responder) {
                Some(record) => {
                    choices.push(record.clone());
                    proof {
                        let kept = before.filter(is_other);
                        assert(crate::text::texts(choices@) =~= held.push(value(squad[i as int])));
                        assert(kept.push(squad[i as int]).map_values(value) =~= kept.map_values(
                            value,
                        ).push(value(squad[i as int])));
                        assert(crate::text::texts(choices@) =~= seq![choice@] + squad.take(
                            i + 1,
                        ).filter(is_other).map_values(value));
                    }
                },
                None => {
                    proof {
                        lemma_filter_keeps(squad, i as int, is_other);
                        let rest = others(squad, local@);
                        assert(rest == squad.filter(is_other));
                        let k = choose|k: int| 0 <= k < rest.len() && rest[k] == squad[i as int];
                        assert(!records@.contains_key(rest[k]));
                    }
                    return None;
                },
            }
        }
        i += 1;
    }
    assert(squad.take(i as int) =~= squad);
    assert(others(squad, local@) == squad.filter(is_other));
    if choices.len() == responders.len() {
        Some(choices)
    } else {
        None
    }
}

proof fn lemma_filter_push<A>(s: Seq<A>, a: A, keep: spec_fn(A) -> bool)
    ensures
        s.push(a).filter(keep) == (if keep(a) {
            s.filter(keep).push(a)
        } else {
            s.filter(keep)
        }),
{
    reveal(Seq::filter);
    assert(s.push(a).drop_last() =~= s);
}

/// An element that is kept stands in what is kept.
proof fn lemma_filter_keeps<A>(s: Seq<A>, i: int, keep: spec_fn(A) -> bool)
    requires
        0 <= i < s.len(),
        keep(s[i]),
    ensures
        exists|k: int| 0 <= k < s.filter(keep).len() && s.filter(keep)[k] == s[i],
    decreases s.len(),
{
    reveal(Seq::filter);
    let init = s.drop_last();
    if i == s.len() - 1 {
        assert(s.filter(keep).last() == s[i]);
        assert(s.filter(keep)[s.filter(keep).len() - 1] == s[i]);
    } else {
        lemma_filter_keeps(init, i, keep);
        let k = choose|k: int| 0 <= k < init.filter(keep).len() && init.filter(keep)[k] == init[i];
        assert(s.filter(keep)[k] == s[i]);
    }
}

/// How often `local` stands in the squad.
pub open spec fn occurrences(responders: Seq<Seq<char>>, local: Seq<char>) -> nat
    decreases responders.len(),
{
    if responders.len() == 0 {
        0
    } else {
        occurrences(responders.drop_last(), local) + (if responders.last() == local {
            1nat
        } else {
            0nat
        })
    }
}

proof fn lemma_others_and_local(responders: Seq<Seq<char>>, local: Seq<char>)
    ensures
        others(responders, local).len() + occurrences(responders, local) == responders.len(),
    decreases responders.len(),
{
    reveal(Seq::filter);
    if responders.len() > 0 {
        lemma_others_and_local(responders.drop_last(), local);
    }
}

/// A squad has choices only if the local player is in it exactly once, and then it has one for
/// each of its members, the local player's first.
pub proof fn law_assembled_choices_cover_the_squad(
    responders: Seq<Seq<char>>,
    local: Seq<char>,
    choice: Seq<char>,
    records: Map<Seq<char>, String>,
)
    ensures
        ({
            let choices = assembled(responders, Some(local), Some(choice), records);
            &&& choices is Some ==> occurrences(responders, local) == 1
            &&& choices is Some ==> choices->0.len() == responders.len()
            &&& choices is Some ==> choices->0[0] == choice
            &&& occurrences(responders, local) != 1 ==> choices is None
        }),
{
    lemma_others_and_local(responders, local);
}

/// The end of a player's scan makes room for another one.
pub fn release_player_record_scan(identity: &str, active_scans: &mut NameSet)
    ensures
        final(active_scans)@ == old(active_scans)@.remove(identity@),
{
    active_scans.remove(identity);
}

/// What a scan for a player's record came to.
#[derive(Debug)]
pub enum RewardResolution {
    /// These choices were confirmed.
    Confirmed { choices: Vec<String> },
    /// Nothing was confirmed.
    Incomplete,
}

/// The one choice that a scan confirmed. Several are as good as none.
pub open spec fn sole_choice(resolution: RewardResolution) -> Option<String> {
    match resolution {
        RewardResolution::Confirmed { choices } => if choices@.len() == 1 {
            Some(choices@[0])
        } else {
            None
        },
        RewardResolution::Incomplete => None,
    }
}

/// Keeps a player's record if it is still wanted: it names one choice, and the fissure that it was
/// looked for in is not over.
///
/// `generation` counts fissures. It is read before the record is looked at, as `seen`, and again
/// once the records can no longer change under the caller, as `held`.
pub fn store_player_record_if_current(
    expected_generation: u64,
    seen: u64,
    held: u64,
    identity: &str,
    resolution: RewardResolution,
    records: &mut NameMap<String>,
)
    requires
        old(records).wf(),
    ensures
        final(records).wf(),
        final(records)@ == (if seen == expected_generation && held == expected_generation
            && sole_choice(resolution) is Some {
            old(records)@.insert(identity@, sole_choice(resolution)->0)
        } else {
            old(records)@
        }),
{
    if seen != expected_generation {
        return;
    }
    if let RewardResolution::Confirmed { choices } = &resolution {
        if choices.len() == 1 && held == expected_generation {
            records.insert(identity.to_owned(), choices[0].clone());
        }
    }
}

/// What to do after one scan for a player's record.
pub enum ScanStep {
    /// The record is confirmed.
    Ready(RewardResolution),
    /// Time is up.
    GiveUp,
    /// Scan again after that many milliseconds, if the fissure is not over by then.
    Retry { after_ms: u64 },
}

/// How long to wait between two scans for a record, in milliseconds.
pub const SCAN_PAUSE_MS: u64 = 25;

/// Whether a player's record is still to be looked for: the fissure is the one it was wanted for.
pub fn scan_is_wanted(expected_generation: u64, generation: u64) -> (wanted: bool)
    ensures
        wanted == (generation == expected_generation),
{
    generation == expected_generation
}

/// What to do after a scan that came to `resolution`: it is over if one choice is confirmed or time
/// is up.
pub open spec fn scan_step(
    resolution: RewardResolution,
    elapsed_nanos: u128,
    timeout_nanos: u128,
) -> ScanStep {
    if sole_choice(resolution) is Some {
        ScanStep::Ready(resolution)
    } else if elapsed_nanos >= timeout_nanos {
        ScanStep::GiveUp
    } else {
        ScanStep::Retry { after_ms: SCAN_PAUSE_MS }
    }
}

/// Decides what to do after one scan, given how long scanning has gone on and how long it may.
pub fn after_scan(resolution: RewardResolution, elapsed_nanos: u128, timeout_nanos: u128) -> (step:
    ScanStep)
    ensures
        step == scan_step(resolution, elapsed_nanos, timeout_nanos),
{
    let ready = match &resolution {
        RewardResolution::Confirmed { choices } => choices.len() == 1,
        RewardResolution::Incomplete => false,
    };
    if ready {
        ScanStep::Ready(resolution)
    } else if elapsed_nanos >= timeout_nanos {
        ScanStep::GiveUp
    } else {
        ScanStep::Retry { after_ms: SCAN_PAUSE_MS }
    }
}

/// How many bytes of a player's identity are noted down.
pub const TRACED_BYTES: usize = 6;

/// What is noted down of a player's identity: its last [`TRACED_BYTES`] bytes, or all of it where it
/// has no more, or where those would begin within a character.
pub open spec fn traced(identity: Seq<char>) -> Seq<char> {
    let bytes = encode_utf8(identity);
    if bytes.len() <= TRACED_BYTES {
        identity
    } else {
        let tail = bytes.skip(bytes.len() - TRACED_BYTES);
        if valid_utf8(tail) {
            decode_utf8(tail)
        } else {
            identity
        }
    }
}

/// What is noted down of a player's identity.
pub fn traced_identity(identity: &str) -> (trace: String)
    ensures
        trace@ == traced(identity@),
{
    let bytes = identity.as_bytes();
    if bytes.len() <= TRACED_BYTES {
        return identity.to_owned();
    }
    let tail = copy_range(bytes, bytes.len() - TRACED_BYTES, bytes.len());
    assert(tail@ == bytes@.skip(bytes@.len() - TRACED_BYTES));
    match decode_text(tail.as_slice()) {
        Some(text) => text.to_owned(),
        None => identity.to_owned(),
    }
}

/// One scan for a player's record.
pub struct ScanRound {
    /// The generation before the scan.
    pub generation: u64,
    /// What it came to.
    pub resolution: RewardResolution,
    /// How long scanning had gone on after it, in nanoseconds.
    pub elapsed_nanos: u128,
}

/// What scanning comes to over these rounds, if it comes to its end within them: the first round
/// that confirms one choice ends it, and so does a new generation or the end of the time, with
/// nothing confirmed.
pub open spec fn scanned(expected_generation: u64, timeout_nanos: u128, rounds: Seq<ScanRound>) -> Option<
    RewardResolution,
>
    decreases rounds.len(),
{
    if rounds.len() == 0 {
        None
    } else if rounds[0].generation != expected_generation {
        Some(RewardResolution::Incomplete)
    } else {
        match scan_step(rounds[0].resolution, rounds[0].elapsed_nanos, timeout_nanos) {
            ScanStep::Ready(resolution) => Some(resolution),
            ScanStep::GiveUp => Some(RewardResolution::Incomplete),
            ScanStep::Retry { .. } => scanned(expected_generation, timeout_nanos, rounds.skip(1)),
        }
    }
}

/// Scanning never ends with a choice that was found for another fissure or among several: what it
/// ends with is nothing, or the one choice of a round before which the generation was still the
/// expected one.
pub proof fn law_scanning_ends_with_one_choice_or_none(
    expected_generation: u64,
    timeout_nanos: u128,
    rounds: Seq<ScanRound>,
)
    requires
        scanned(expected_generation, timeout_nanos, rounds) is Some,
    ensures
        ({
            let end = scanned(expected_generation, timeout_nanos, rounds)->0;
            ||| end is Incomplete
            ||| exists|i: int|
                0 <= i < rounds.len() && (#[trigger] rounds[i]).resolution == end
                    && rounds[i].generation == expected_generation && sole_choice(end) is Some
        }),
    decreases rounds.len(),
{
    if rounds[0].generation == expected_generation && sole_choice(rounds[0].resolution) is None
        && rounds[0].elapsed_nanos < timeout_nanos {
        let rest = rounds.skip(1);
        law_scanning_ends_with_one_choice_or_none(expected_generation, timeout_nanos, rest);
        let end = scanned(expected_generation, timeout_nanos, rest)->0;
        if !(end is Incomplete) {
            let i = choose|i: int|
                0 <= i < rest.len() && (#[trigger] rest[i]).resolution == end && rest[i].generation
                    == expected_generation && sole_choice(end) is Some;
            assert(rounds[i + 1] == rest[i]);
        }
    }
}

/// Scanning goes on for one round at most once its time is up.
pub proof fn law_scanning_ends_in_time(
    expected_generation: u64,
    timeout_nanos: u128,
    rounds: Seq<ScanRound>,
    i: int,
)
    requires
        0 <= i < rounds.len(),
        rounds[i].elapsed_nanos >= timeout_nanos,
    ensures
        scanned(expected_generation, timeout_nanos, rounds) is Some,
    decreases rounds.len(),
{
    if i > 0 {
        let rest = rounds.skip(1);
        assert(rest[i - 1] == rounds[i]);
        law_scanning_ends_in_time(expected_generation, timeout_nanos, rest, i - 1);
    }
}

/// Turning the choices keeps them in their order, going round: each moves by the same number of
/// places.
pub proof fn law_rotation_goes_round(choices: Seq<String>, local: Seq<char>, rotated: Seq<String>) -> (by:
    int)
    requires
        is_rotated(choices, local, rotated),
        choices.len() > 0,
    ensures
        0 <= by < choices.len(),
        rotated.len() == choices.len(),
        forall|i: int|
            0 <= i < choices.len() ==> #[trigger] rotated[i] == (if i + by < choices.len() {
                choices[i + by]
            } else {
                choices[i + by - choices.len()]
            }),
        by == 0 || choices[by]@ == local,
        (forall|j: int| 0 <= j < choices.len() ==> (#[trigger] choices[j])@ != local) ==> by == 0,
        forall|j: int| 0 <= j < by ==> (#[trigger] choices[j])@ != local,
{
    if exists|i: int|
        0 <= i < choices.len() && (#[trigger] choices[i])@ == local && (forall|j: int|
            0 <= j < i ==> (#[trigger] choices[j])@ != local) && rotated == choices.skip(i)
            + choices.take(i) {
        choose|i: int|
            0 <= i < choices.len() && (#[trigger] choices[i])@ == local && (forall|j: int|
                0 <= j < i ==> (#[trigger] choices[j])@ != local) && rotated == choices.skip(i)
                + choices.take(i)
    } else {
        0
    }
}

/// A path from the log names the item that it is the path of. The path of a store entry names also
/// the item with the same rest of the path, and no path names any other.
pub proof fn law_store_paths_name_their_items(path: Seq<char>, catalog_path: Seq<char>, rest: Seq<char>)
    ensures
        names_same_reward(path, path),
        names_same_reward("/Lotus/StoreItems"@ + rest, "/Lotus"@ + rest),
        names_same_reward("/Lotus/StoreItems"@ + rest, catalog_path) ==> catalog_path
            == "/Lotus/StoreItems"@ + rest || catalog_path == "/Lotus"@ + rest,
        (forall|any: Seq<char>| path != #[trigger] ("/Lotus/StoreItems"@ + any)) ==> (
        names_same_reward(path, catalog_path) <==> path == catalog_path),
{
    let store = "/Lotus/StoreItems"@;
    assert(store + rest == store + rest);
    if names_same_reward(store + rest, catalog_path) && catalog_path != store + rest {
        let suffix = choose|suffix: Seq<char>|
            store + rest == #[trigger] (store + suffix) && catalog_path == "/Lotus"@ + suffix;
        assert((store + rest).skip(store.len() as int) =~= rest);
        assert((store + suffix).skip(store.len() as int) =~= suffix);
    }
}

/// A reward is named by a path exactly if one of its own paths is text that the path names. A path
/// of its own that is no text counts as empty.
pub proof fn law_reward_is_named_by_its_paths(needle: RewardNeedle, path: Seq<char>, k: int, text: Seq<char>)
    requires
        0 <= k < needle.internal_paths@.len(),
        needle.internal_paths@[k]@ == encode_utf8(text),
    ensures
        names_same_reward(path, text) ==> is_named_by(needle, path),
        is_named_by(needle, path) ==> exists|n: int|
            0 <= n < needle.internal_paths@.len() && ((valid_utf8(
                (#[trigger] needle.internal_paths@[n])@,
            ) && names_same_reward(path, decode_utf8(needle.internal_paths@[n]@))) || (!valid_utf8(
                needle.internal_paths@[n]@,
            ) && names_same_reward(path, Seq::empty()))),
{
    encode_utf8_decode_utf8(text);
    encode_utf8_valid_utf8(text);
    assert(text_or_nothing(needle.internal_paths@[k]@) == text);
    if is_named_by(needle, path) {
        let n = choose|n: int|
            0 <= n < needle.internal_paths@.len() && names_same_reward(
                path,
                text_or_nothing((#[trigger] needle.internal_paths@[n])@),
            );
        assert(needle.internal_paths@[n]@ == needle.internal_paths@[n]@);
    }
}

/// The choice that a path names is that of the first candidate that it names, whole, and there is
/// none if it names no candidate or is missing.
pub proof fn law_choice_is_that_of_the_first_candidate(
    candidates: Seq<RewardNeedle>,
    path: Option<Seq<char>>,
    choice: Option<Seq<char>>,
)
    requires
        is_choice_of(candidates, path, choice),
    ensures
        path is None ==> choice is None,
        path is Some ==> forall|i: int|
            0 <= i < candidates.len() && is_named_by(#[trigger] candidates[i], path->0) && (forall|
                j: int,
            |
                0 <= j < i ==> !is_named_by(#[trigger] candidates[j], path->0)) ==> choice == Some(
                candidates[i].choice_name@,
            ),
        path is Some && (forall|j: int|
            0 <= j < candidates.len() ==> !is_named_by(#[trigger] candidates[j], path->0))
            ==> choice is None,
{
    if let Some(name) = choice {
        let i = choose|i: int|
            0 <= i < candidates.len() && is_named_by(#[trigger] candidates[i], path->0) && name
                == candidates[i].choice_name@ && forall|j: int|
                0 <= j < i ==> !is_named_by(#[trigger] candidates[j], path->0);
        assert(is_named_by(candidates[i], path->0));
    }
}

/// A squad without a local player, the others are all of it.
proof fn lemma_no_local(responders: Seq<Seq<char>>, local: Seq<char>)
    requires
        forall|i: int| 0 <= i < responders.len() ==> #[trigger] responders[i] != local,
    ensures
        others(responders, local) == responders,
    decreases responders.len(),
{
    reveal(Seq::filter);
    if responders.len() > 0 {
        let init = responders.drop_last();
        assert forall|i: int| 0 <= i < init.len() implies #[trigger] init[i] != local by {
            assert(responders[i] != local);
        }
        lemma_no_local(init, local);
        assert(responders[responders.len() - 1] != local);
        assert(init.push(responders.last()) =~= responders);
    } else {
        assert(responders =~= Seq::empty());
        assert(others(responders, local) =~= responders);
    }
}

/// The others are the squad without the place of the local player.
proof fn lemma_others_leave_out_one(responders: Seq<Seq<char>>, local: Seq<char>, l: int)
    requires
        0 <= l < responders.len(),
        responders[l] == local,
        forall|i: int| 0 <= i < responders.len() && i != l ==> #[trigger] responders[i] != local,
    ensures
        others(responders, local) == responders.take(l) + responders.skip(l + 1),
    decreases responders.len(),
{
    reveal(Seq::filter);
    let init = responders.drop_last();
    if l == responders.len() - 1 {
        assert forall|i: int| 0 <= i < init.len() implies #[trigger] init[i] != local by {
            assert(responders[i] != local);
        }
        lemma_no_local(init, local);
        assert(responders.take(l) + responders.skip(l + 1) =~= init);
    } else {
        assert forall|i: int| 0 <= i < init.len() && i != l implies #[trigger] init[i] != local by {
            assert(responders[i] != local);
        }
        lemma_others_leave_out_one(init, local, l);
        assert(responders[responders.len() - 1] != local);
        assert((init.take(l) + init.skip(l + 1)).push(responders.last()) =~= responders.take(l)
            + responders.skip(l + 1));
    }
}

/// The choices of a squad whose local player stands at `l`: there are some exactly if everyone else
/// is on record. The local player's comes first, and the others' records follow, each whole and in
/// the order of the squad.
pub proof fn law_assembled_choices_are_the_records(
    responders: Seq<Seq<char>>,
    local: Seq<char>,
    choice: Seq<char>,
    records: Map<Seq<char>, String>,
    l: int,
)
    requires
        0 <= l < responders.len(),
        responders[l] == local,
        forall|i: int| 0 <= i < responders.len() && i != l ==> #[trigger] responders[i] != local,
    ensures
        ({
            let choices = assembled(responders, Some(local), Some(choice), records);
            &&& choices is Some <==> forall|i: int|
                0 <= i < responders.len() && i != l ==> records.contains_key(
                    #[trigger] responders[i],
                )
            &&& choices matches Some(list) ==> {
                &&& list.len() == responders.len()
                &&& list[0] == choice
                &&& forall|i: int| 0 <= i < l ==> list[i + 1] == records[#[trigger] responders[i]]@
                &&& forall|i: int|
                    l < i < responders.len() ==> list[i] == records[#[trigger] responders[i]]@
            }
        }),
{
    lemma_others_leave_out_one(responders, local, l);
    let rest = others(responders, local);
    let choices = assembled(responders, Some(local), Some(choice), records);
    assert forall|i: int| 0 <= i < l implies rest[i] == #[trigger] responders[i] by {}
    assert forall|i: int| l < i < responders.len() implies rest[i - 1] == #[trigger] responders[i] by {}
    if forall|i: int|
        0 <= i < responders.len() && i != l ==> records.contains_key(#[trigger] responders[i]) {
        assert forall|k: int| 0 <= k < rest.len() implies records.contains_key(#[trigger] rest[k]) by {
            if k < l {
                assert(records.contains_key(responders[k]));
            } else {
                assert(records.contains_key(responders[k + 1]));
            }
        }
    }
    if choices is Some {
        assert forall|i: int| 0 <= i < responders.len() && i != l implies records.contains_key(
            #[trigger] responders[i],
        ) by {
            if i < l {
                assert(records.contains_key(rest[i]));
            } else {
                assert(records.contains_key(rest[i - 1]));
            }
        }
    }
}

/// A squad in which the local player does not stand, or stands twice, has no choices, and neither
/// has one whose local player or their choice is not known.
pub proof fn law_squad_needs_its_local_player(
    responders: Seq<Seq<char>>,
    local: Option<Seq<char>>,
    choice: Option<Seq<char>>,
    records: Map<Seq<char>, String>,
    i: int,
    j: int,
)
    ensures
        local is None || choice is None ==> assembled(responders, local, choice, records) is None,
        local is Some && (forall|k: int|
            0 <= k < responders.len() ==> #[trigger] responders[k] != local->0) ==> assembled(
            responders,
            local,
            choice,
            records,
        ) is None,
        local is Some && 0 <= i < j < responders.len() && responders[i] == local->0 && responders[j]
            == local->0 ==> assembled(responders, local, choice, records) is None,
{
    if let Some(player) = local {
        lemma_others_and_local(responders, player);
        if forall|k: int| 0 <= k < responders.len() ==> #[trigger] responders[k] != player {
            lemma_no_local(responders, player);
        }
        if 0 <= i < j < responders.len() && responders[i] == player && responders[j] == player {
            lemma_two_occurrences(responders, player, i, j);
        }
    }
}

proof fn lemma_one_occurrence(responders: Seq<Seq<char>>, local: Seq<char>, i: int)
    requires
        0 <= i < responders.len(),
        responders[i] == local,
    ensures
        occurrences(responders, local) >= 1,
    decreases responders.len(),
{
    if i < responders.len() - 1 {
        lemma_one_occurrence(responders.drop_last(), local, i);
    }
}

proof fn lemma_two_occurrences(responders: Seq<Seq<char>>, local: Seq<char>, i: int, j: int)
    requires
        0 <= i < j < responders.len(),
        responders[i] == local,
        responders[j] == local,
    ensures
        occurrences(responders, local) >= 2,
    decreases responders.len(),
{
    if j < responders.len() - 1 {
        lemma_two_occurrences(responders.drop_last(), local, i, j);
    } else {
        lemma_one_occurrence(responders.drop_last(), local, i);
    }
}

/// A scan confirmed a choice exactly if it confirmed one alone, and it is that one. It is then over,
/// with that. Otherwise it is over exactly once its time is up, and is repeated before.
pub proof fn law_scan_is_over_with_one_choice(
    resolution: RewardResolution,
    elapsed_nanos: u128,
    timeout_nanos: u128,
)
    ensures
        ({
            let alone = resolution is Confirmed && resolution->choices@.len() == 1;
            let step = scan_step(resolution, elapsed_nanos, timeout_nanos);
            &&& sole_choice(resolution) is Some <==> alone
            &&& alone ==> sole_choice(resolution)->0 == resolution->choices@[0]
            &&& step is Ready <==> alone
            &&& step matches ScanStep::Ready(ready) ==> ready == resolution
            &&& step is GiveUp <==> !alone && elapsed_nanos >= timeout_nanos
            &&& step is Retry <==> !alone && elapsed_nanos < timeout_nanos
            &&& step matches ScanStep::Retry { after_ms } ==> after_ms == 25
        }),
{
}

/// What is noted down of an identity is all of it if it has at most six bytes. Otherwise it is its
/// last six bytes, and all of it only where those are no text by themselves.
pub proof fn law_trace_is_the_end_of_the_identity(identity: Seq<char>)
    ensures
        ({
            let bytes = encode_utf8(identity);
            &&& bytes.len() <= 6 ==> traced(identity) == identity
            &&& bytes.len() > 6 && valid_utf8(bytes.skip(bytes.len() - 6)) ==> encode_utf8(
                traced(identity),
            ) == bytes.skip(bytes.len() - 6)
            &&& bytes.len() > 6 && !valid_utf8(bytes.skip(bytes.len() - 6)) ==> traced(identity)
                == identity
        }),
{
    let bytes = encode_utf8(identity);
    if bytes.len() > 6 && valid_utf8(bytes.skip(bytes.len() - 6)) {
        decode_utf8_encode_utf8(bytes.skip(bytes.len() - 6));
    }
}

} // verus!
