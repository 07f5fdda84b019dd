//! Identity bindings and successions: what a change does to the stored records
//! and how a chain of successions is followed.

use crate::text::{contains_text, joined, same_text};
use crate::types::{StoreError, StoreErrorView};
use vstd::prelude::*;
use vstd::string::*;

verus! {

/// The text under a key of a JSON object; none where the text is not JSON or holds
/// no text under the key.
pub uninterp spec fn json_text_at(json: Seq<char>, key: Seq<char>) -> Option<Seq<char>>;

/// Calls `serde_json::from_str` and picks the text under the key. Trusted is that
/// the outcome is a function of the JSON text and the key.
#[verifier::external_body]
fn json_text(json: &str, key: &str) -> (text: Option<String>)
    ensures
        match text {
            Some(t) => json_text_at(json@, key@) == Some(t@),
            None => json_text_at(json@, key@) is None,
        },
{
    let value = serde_json::from_str::<serde_json::Value>(json).ok()?;
    value[key].as_str().map(str::to_string)
}

/// What a record binds: the text under its "target"; nothing where it has none.
pub open spec fn json_target(json: Seq<char>) -> Option<Seq<char>> {
    json_text_at(json, "target"@)
}

/// What each record binds.
pub open spec fn targets_of(records: Seq<Seq<char>>) -> Seq<Option<Seq<char>>> {
    records.map_values(|r: Seq<char>| json_target(r))
}

/// Optional texts as optional sequences of characters.
pub open spec fn targets_view(targets: Seq<Option<String>>) -> Seq<Option<Seq<char>>> {
    targets.map_values(|t: Option<String>| match t {
        Some(text) => Some(text@),
        None => None,
    })
}

/// Read what each record binds.
fn read_targets(records: &Vec<String>) -> (targets: Vec<Option<String>>)
    ensures
        targets_view(targets@) == targets_of(crate::text::texts(records@)),
{
    let mut targets: Vec<Option<String>> = Vec::new();
    let mut i: usize = 0;
    while i < records.len()
        invariant
            i <= records@.len(),
            targets@.len() == i,
            forall|j: int|
                0 <= j < i ==> #[trigger] targets_view(targets@)[j] == json_target(records@[j]@),
        decreases records@.len() - i,
    {
        let ghost before = targets_view(targets@);
        targets.push(json_text(records[i].as_str(), "target"));
        assert(targets_view(targets@) =~= before.push(json_target(records@[i as int]@)));
        i = i + 1;
    }
    assert(targets_view(targets@) =~= targets_of(crate::text::texts(records@)));
    targets
}

/// Whether what a record binds is the target.
fn is_target(bound: &Option<String>, target: &str) -> (yes: bool)
    ensures
        yes == match bound {
            Some(text) => text@ == target@,
            None => false,
        },
{
    match bound {
        Some(text) => same_text(text.as_str(), target),
        None => false,
    }
}

/// What putting a binding does to the records of its source.
#[derive(Debug)]
pub enum BindingChange {
    /// The very record is there already.
    Keep,
    /// This record binds the same target and gives way to the new one.
    Replace(String),
    /// The new record is added.
    Insert,
}

/// A [`BindingChange`] with its text as a sequence of characters.
#[verifier::ext_equal]
pub enum ChangeView {
    Keep,
    Replace(Seq<char>),
    Insert,
}

impl View for BindingChange {
    type V = ChangeView;

    open spec fn view(&self) -> ChangeView {
        match self {
            BindingChange::Keep => ChangeView::Keep,
            BindingChange::Replace(old) => ChangeView::Replace(old@),
            BindingChange::Insert => ChangeView::Insert,
        }
    }
}

/// The change is what the first record that binds the target calls for: none if
/// it is the new record itself, its replacement if it differs. Without such a
/// record the new one is added. `targets` tells what each record binds.
pub open spec fn change_of(
    records: Seq<Seq<char>>,
    targets: Seq<Option<Seq<char>>>,
    target: Seq<char>,
    json: Seq<char>,
    change: ChangeView,
) -> bool {
    ||| change == ChangeView::Insert && forall|i: int|
        0 <= i < targets.len() ==> #[trigger] targets[i] != Some(target)
    ||| exists|i: int|
        {
            &&& 0 <= i < targets.len()
            &&& #[trigger] targets[i] == Some(target)
            &&& forall|j: int| 0 <= j < i ==> #[trigger] targets[j] != Some(target)
            &&& change == if records[i] == json {
                ChangeView::Keep
            } else {
                ChangeView::Replace(records[i])
            }
        }
}

/// Decide what putting a binding does, from the records of its source.
pub fn binding_change(records: &Vec<String>, target: &str, json: &str) -> (change: BindingChange)
    ensures
        change_of(
            crate::text::texts(records@),
            targets_of(crate::text::texts(records@)),
            target@,
            json@,
            change@,
        ),
{
    let targets = read_targets(records);
    assert(targets_view(targets@).len() == records@.len());
    change_for(records, &targets, target, json)
}

/// Decide what putting a binding does, from the records of its source and what
/// each of them binds.
pub fn change_for(
    records: &Vec<String>,
    targets: &Vec<Option<String>>,
    target: &str,
    json: &str,
) -> (change: BindingChange)
    requires
        targets@.len() == records@.len(),
    ensures
        change_of(
            crate::text::texts(records@),
            targets_view(targets@),
            target@,
            json@,
            change@,
        ),
{
    let ghost texts = crate::text::texts(records@);
    let ghost bound = targets_view(targets@);
    let mut i: usize = 0;
    while i < records.len()
        invariant
            i <= records@.len(),
            targets@.len() == records@.len(),
            texts == crate::text::texts(records@),
            bound == targets_view(targets@),
            forall|j: int| 0 <= j < i ==> #[trigger] bound[j] != Some(target@),
        decreases records@.len() - i,
    {
        let record = records[i].as_str();
        assert(texts[i as int] == record@);
        if is_target(&targets[i], target) {
            assert(bound[i as int] == Some(target@));
            if same_text(record, json) {
                return BindingChange::Keep;
            }
            return BindingChange::Replace(record.to_owned());
        }
        i = i + 1;
    }
    BindingChange::Insert
}

/// The records behind a change.
pub open spec fn changed(records: Set<Seq<char>>, json: Seq<char>, change: ChangeView) -> Set<
    Seq<char>,
> {
    match change {
        ChangeView::Keep => records,
        ChangeView::Replace(old) => records.remove(old).insert(json),
        ChangeView::Insert => records.insert(json),
    }
}

/// No target is bound by two records.
pub open spec fn one_per_target(records: Set<Seq<char>>) -> bool {
    forall|a: Seq<char>, b: Seq<char>|
        #![trigger records.contains(a), records.contains(b)]
        records.contains(a) && records.contains(b) && json_target(a) is Some && json_target(a)
            == json_target(b) ==> a == b
}

/// The records of a source in a table of them.
pub open spec fn records_of(
    table: Map<Seq<char>, Set<Seq<char>>>,
    source: Seq<char>,
) -> Set<Seq<char>> {
    if table.contains_key(source) {
        table[source]
    } else {
        Set::empty()
    }
}

/// The table behind a change to the records of a source.
pub open spec fn table_changed(
    table: Map<Seq<char>, Set<Seq<char>>>,
    source: Seq<char>,
    json: Seq<char>,
    change: ChangeView,
) -> Map<Seq<char>, Set<Seq<char>>> {
    table.insert(source, changed(records_of(table, source), json, change))
}

/// Putting a binding leaves its source with its record and with those of the
/// records before that bind other targets, so with one record for each target. A
/// record that is there already changes nothing, and other sources keep theirs.
pub proof fn law_binding_put(
    table: Map<Seq<char>, Set<Seq<char>>>,
    source: Seq<char>,
    records: Seq<Seq<char>>,
    target: Seq<char>,
    json: Seq<char>,
    change: ChangeView,
)
    requires
        records.to_set() == records_of(table, source),
        one_per_target(records_of(table, source)),
        json_target(json) == Some(target),
        change_of(records, targets_of(records), target, json, change),
    ensures
        ({
            let before = records_of(table, source);
            let after = table_changed(table, source, json, change);
            &&& records_of(after, source) == before.filter(
                |r: Seq<char>| json_target(r) != Some(target),
            ).insert(json)
            &&& one_per_target(records_of(after, source))
            &&& before.contains(json) ==> records_of(after, source) == before
            &&& forall|other: Seq<char>|
                other != source ==> #[trigger] records_of(after, other) == records_of(
                    table,
                    other,
                )
        }),
{
    let before = records.to_set();
    let after = changed(before, json, change);
    assert forall|r: Seq<char>| before.contains(r) <==> records.contains(r) by {}
    if change == ChangeView::Insert {
        assert forall|r: Seq<char>| before.contains(r) implies json_target(r) != Some(target) by {
            let i = choose|i: int| 0 <= i < records.len() && records[i] == r;
            assert(targets_of(records)[i] == json_target(r));
        }
    } else {
        let targets = targets_of(records);
        let i = choose|i: int|
            {
                &&& 0 <= i < targets.len()
                &&& #[trigger] targets[i] == Some(target)
                &&& forall|j: int| 0 <= j < i ==> #[trigger] targets[j] != Some(target)
                &&& change == if records[i] == json {
                    ChangeView::Keep
                } else {
                    ChangeView::Replace(records[i])
                }
            };
        assert(before.contains(records[i]));
        assert forall|r: Seq<char>| before.contains(r) && json_target(r) == Some(target) implies r
            == records[i] by {
            assert(before.contains(records[i]));
        }
    }
    let others = before.filter(|r: Seq<char>| json_target(r) != Some(target));
    assert(after =~= others.insert(json));
    assert(before.contains(json) ==> after =~= before) by {
        if before.contains(json) {
            assert forall|r: Seq<char>| before.contains(r) && json_target(r) == Some(
                target,
            ) implies r == json by {}
        }
    }
    assert forall|a: Seq<char>, b: Seq<char>|
        #![trigger after.contains(a), after.contains(b)]
        after.contains(a) && after.contains(b) && json_target(a) is Some && json_target(a)
            == json_target(b) implies a == b by {
        if a != json && b != json {
            assert(before.contains(a) && before.contains(b));
        }
    }
}

/// Putting the same binding again changes nothing.
pub proof fn law_binding_put_is_idempotent(
    records: Seq<Seq<char>>,
    target: Seq<char>,
    json: Seq<char>,
    change: ChangeView,
)
    requires
        one_per_target(records.to_set()),
        json_target(json) == Some(target),
        records.contains(json),
        change_of(records, targets_of(records), target, json, change),
    ensures
        change == ChangeView::Keep,
{
    let k = choose|k: int| 0 <= k < records.len() && records[k] == json;
    let targets = targets_of(records);
    assert(targets[k] == Some(target));
    assert(records.to_set().contains(json));
    assert forall|i: int|
        0 <= i < targets.len() && #[trigger] targets[i] == Some(target) implies records[i]
            == json by {
        assert(records.to_set().contains(records[i]));
    }
}

/// The records that bind the target, in order; `targets` tells what each binds.
pub open spec fn bound_to(
    records: Seq<Seq<char>>,
    targets: Seq<Option<Seq<char>>>,
    target: Seq<char>,
) -> Seq<Seq<char>>
    decreases records.len(),
{
    if records.len() == 0 {
        Seq::empty()
    } else {
        let before = bound_to(records.drop_last(), targets, target);
        if targets[records.len() - 1] == Some(target) {
            before.push(records.last())
        } else {
            before
        }
    }
}

/// The records that deleting a binding removes: those that bind the target.
pub fn bindings_to_delete(records: &Vec<String>, target: &str) -> (found: Vec<String>)
    ensures
        crate::text::texts(found@) == bound_to(
            crate::text::texts(records@),
            targets_of(crate::text::texts(records@)),
            target@,
        ),
{
    let targets = read_targets(records);
    assert(targets_view(targets@).len() == records@.len());
    records_bound(records, &targets, target)
}

/// The records that bind the target, from what each of them binds.
pub fn records_bound(
    records: &Vec<String>,
    targets: &Vec<Option<String>>,
    target: &str,
) -> (found: Vec<String>)
    requires
        targets@.len() == records@.len(),
    ensures
        crate::text::texts(found@) == bound_to(
            crate::text::texts(records@),
            targets_view(targets@),
            target@,
        ),
{
    let ghost texts = crate::text::texts(records@);
    let ghost bound = targets_view(targets@);
    let mut found: Vec<String> = Vec::new();
    let mut i: usize = 0;
    assert(texts.take(0) =~= Seq::<Seq<char>>::empty());
    assert(crate::text::texts(found@) =~= Seq::<Seq<char>>::empty());
    while i < records.len()
        invariant
            i <= records@.len(),
            targets@.len() == records@.len(),
            texts == crate::text::texts(records@),
            bound == targets_view(targets@),
            crate::text::texts(found@) == bound_to(texts.take(i as int), bound, target@),
        decreases records@.len() - i,
    {
        let record = records[i].as_str();
        assert(texts[i as int] == record@);
        assert(texts.take(i + 1).drop_last() =~= texts.take(i as int));
        if is_target(&targets[i], target) {
            assert(bound[i as int] == Some(target@));
            let ghost before = crate::text::texts(found@);
            found.push(record.to_owned());
            assert(crate::text::texts(found@) =~= before.push(record@));
        }
        i = i + 1;
    }
    assert(texts.take(i as int) =~= texts);
    found
}

/// Of the first `n` records, those that bind the target are found.
proof fn bound_to_contains(records: Seq<Seq<char>>, n: int, target: Seq<char>, record: Seq<char>)
    requires
        0 <= n <= records.len(),
    ensures
        bound_to(records.take(n), targets_of(records), target).contains(record)
            <==> records.take(n).contains(record) && json_target(record) == Some(target),
    decreases n,
{
    if n > 0 {
        let front = records.take(n - 1);
        let taken = records.take(n);
        let last = records[n - 1];
        let targets = targets_of(records);
        let before = bound_to(front, targets, target);
        bound_to_contains(records, n - 1, target, record);
        assert(taken.drop_last() =~= front);
        assert(taken =~= front.push(last));
        assert(targets[n - 1] == json_target(last));
        let now = bound_to(taken, targets, target);
        if before.contains(record) {
            let k = choose|k: int| 0 <= k < before.len() && before[k] == record;
            assert(now[k] == record);
        }
        if front.contains(record) {
            let k = choose|k: int| 0 <= k < front.len() && front[k] == record;
            assert(taken[k] == record);
        }
        if taken.contains(record) && record != last {
            let k = choose|k: int| 0 <= k < taken.len() && taken[k] == record;
            assert(front[k] == record);
        }
        assert(taken[n - 1] == last);
        if json_target(last) == Some(target) {
            assert(now[before.len() as int] == last);
            if now.contains(record) && record != last {
                let k = choose|k: int| 0 <= k < now.len() && now[k] == record;
                assert(before[k] == record);
            }
        }
    }
}

/// The records found are exactly those that bind the target.
proof fn bound_to_exact(records: Seq<Seq<char>>, target: Seq<char>, record: Seq<char>)
    ensures
        bound_to(records, targets_of(records), target).contains(record) <==> records.contains(
            record,
        ) && json_target(record) == Some(target),
{
    bound_to_contains(records, records.len() as int, target, record);
    assert(records.take(records.len() as int) =~= records);
}

/// The table without the given records of a source.
pub open spec fn table_without(
    table: Map<Seq<char>, Set<Seq<char>>>,
    source: Seq<char>,
    gone: Seq<Seq<char>>,
) -> Map<Seq<char>, Set<Seq<char>>> {
    table.insert(source, records_of(table, source).difference(gone.to_set()))
}

/// Deleting a binding leaves a source with those of its records that bind other
/// targets, however many bound this one; other sources keep theirs. Deleting it
/// once more finds nothing. `left` is a listing of the records that are left.
pub proof fn law_binding_delete(
    table: Map<Seq<char>, Set<Seq<char>>>,
    source: Seq<char>,
    records: Seq<Seq<char>>,
    target: Seq<char>,
    left: Seq<Seq<char>>,
)
    requires
        records.to_set() == records_of(table, source),
        left.to_set() == records_of(
            table_without(table, source, bound_to(records, targets_of(records), target)),
            source,
        ),
    ensures
        ({
            let gone = bound_to(records, targets_of(records), target);
            let after = table_without(table, source, gone);
            &&& records_of(after, source) == records_of(table, source).filter(
                |r: Seq<char>| json_target(r) != Some(target),
            )
            &&& bound_to(left, targets_of(left), target) == Seq::<Seq<char>>::empty()
            &&& forall|other: Seq<char>|
                other != source ==> #[trigger] records_of(after, other) == records_of(
                    table,
                    other,
                )
        }),
{
    let gone = bound_to(records, targets_of(records), target);
    let before = records_of(table, source);
    let after = before.difference(gone.to_set());
    assert forall|r: Seq<char>| gone.to_set().contains(r) <==> before.contains(r) && json_target(
        r,
    ) == Some(target) by {
        bound_to_exact(records, target, r);
        assert(records.to_set().contains(r) <==> records.contains(r));
    }
    assert(after =~= before.filter(|r: Seq<char>| json_target(r) != Some(target)));
    let again = bound_to(left, targets_of(left), target);
    if again.len() > 0 {
        bound_to_exact(left, target, again[0]);
        assert(again.contains(again[0]));
        assert(left.to_set().contains(again[0]));
    }
}

/// The positions of the bindings whose target is the asserter, in order.
pub open spec fn asserted_by(
    targets: Seq<Seq<char>>,
    asserter: Seq<char>,
    found: Seq<usize>,
) -> bool {
    &&& forall|k: int|
        0 <= k < found.len() ==> (#[trigger] found[k]) < targets.len() && targets[found[k] as int]
            == asserter
    &&& forall|k: int, l: int|
        0 <= k < l < found.len() ==> (#[trigger] found[k]) < (#[trigger] found[l])
    &&& forall|i: int|
        0 <= i < targets.len() && #[trigger] targets[i] == asserter ==> exists|k: int|
            0 <= k < found.len() && #[trigger] found[k] == i
}

/// Find the bindings whose target is the asserter, by position.
pub fn bindings_by_asserter(targets: &Vec<String>, asserter: &str) -> (found: Vec<usize>)
    ensures
        asserted_by(crate::text::texts(targets@), asserter@, found@),
{
    let ghost texts = crate::text::texts(targets@);
    let mut found: Vec<usize> = Vec::new();
    let mut i: usize = 0;
    while i < targets.len()
        invariant
            i <= targets@.len(),
            texts == crate::text::texts(targets@),
            forall|k: int|
                0 <= k < found@.len() ==> (#[trigger] found@[k]) < i && texts[found@[k] as int]
                    == asserter@,
            forall|k: int, l: int|
                0 <= k < l < found@.len() ==> (#[trigger] found@[k]) < (#[trigger] found@[l]),
            forall|j: int|
                0 <= j < i && #[trigger] texts[j] == asserter@ ==> exists|k: int|
                    0 <= k < found@.len() && #[trigger] found@[k] == j,
        decreases targets@.len() - i,
    {
        assert(texts[i as int] == targets@[i as int]@);
        if same_text(targets[i].as_str(), asserter) {
            let ghost before = found@;
            found.push(i);
            assert forall|j: int| 0 <= j < i + 1 && #[trigger] texts[j] == asserter@ implies exists|
                k: int,
            |
                0 <= k < found@.len() && #[trigger] found@[k] == j by {
                if j < i {
                    let k = choose|k: int| 0 <= k < before.len() && #[trigger] before[k] == j;
                    assert(found@[k] == j);
                } else {
                    assert(found@[before.len() as int] == j);
                }
            }
        }
        i = i + 1;
    }
    found
}

/// The most hops that a chain of successions may have.
pub const MAX_HOPS: usize = 10;

/// What marks the assertions of a succeeded anchor as void.
#[derive(Debug)]
pub struct WatermarkPlan {
    /// The anchor that was succeeded.
    pub asserter: String,
    /// Assertions from before this time are void.
    pub invalidate_before_ms: u64,
    /// Why they are.
    pub reason: String,
}

/// The time of the watermark: zero for a compromised key, else when the
/// succession takes effect.
pub open spec fn watermark_time(reason: Seq<char>, effective_at_ms: u64) -> u64 {
    if reason == "key-compromise"@ {
        0
    } else {
        effective_at_ms
    }
}

/// Decide a succession: an anchor cannot succeed itself; any other succession
/// leaves a watermark on the old anchor.
pub fn plan_succession(
    old_anchor: &str,
    new_anchor: &str,
    reason: &str,
    effective_at_ms: u64,
) -> (plan: Result<WatermarkPlan, StoreError>)
    ensures
        match plan {
            Ok(w) => {
                &&& old_anchor@ != new_anchor@
                &&& w.asserter@ == old_anchor@
                &&& w.invalidate_before_ms == watermark_time(reason@, effective_at_ms)
                &&& reason@ == "key-compromise"@ ==> w.invalidate_before_ms == 0
                &&& reason@ != "key-compromise"@ ==> w.invalidate_before_ms == effective_at_ms
                &&& w.reason@ == reason@ + " succession"@
            },
            Err(e) => {
                &&& old_anchor@ == new_anchor@
                &&& e@ == StoreErrorView::Rejected("cannot succeed to self"@)
            },
        },
{
    if same_text(old_anchor, new_anchor) {
        return Err(StoreError::Rejected("cannot succeed to self".to_owned()));
    }
    let invalidate_before_ms: u64 = if same_text(reason, "key-compromise") {
        0
    } else {
        effective_at_ms
    };
    Ok(
        WatermarkPlan {
            asserter: old_anchor.to_owned(),
            invalidate_before_ms,
            reason: joined(reason, " succession"),
        },
    )
}

/// A succession is planned exactly where the two anchors differ. Its watermark
/// stands on the old anchor, keeps the reason in front of its text, and voids what
/// is older than the succession; for a compromised key its time is zero, so two
/// plans for one anchor and reason differ in nothing but the times they were given.
pub proof fn law_succession_watermark(
    old_anchor: &str,
    new_anchor: &str,
    reason: &str,
    effective_at_ms: u64,
    plan: Result<WatermarkPlan, StoreError>,
)
    requires
        call_ensures(plan_succession, (old_anchor, new_anchor, reason, effective_at_ms), plan),
    ensures
        plan is Ok <==> old_anchor@ != new_anchor@,
        plan matches Ok(w) ==> {
            &&& w.asserter@ == old_anchor@
            &&& reason@ != "key-compromise"@ ==> w.invalidate_before_ms == effective_at_ms
            &&& reason@ == "key-compromise"@ ==> w.invalidate_before_ms == 0
            &&& w.reason@.len() == reason@.len() + " succession"@.len()
            &&& reason@.is_prefix_of(w.reason@)
            &&& " succession"@.is_suffix_of(w.reason@)
        },
        plan matches Err(e) ==> e matches StoreError::Rejected(text) && text@
            == "cannot succeed to self"@,
{
    if let Ok(w) = plan {
        assert(w.reason@.take(reason@.len() as int) =~= reason@);
        assert(w.reason@.skip(reason@.len() as int) =~= " succession"@);
    }
}

/// The tag that a watermark is kept under.
pub fn watermark_tag(kappa: &str) -> (tag: String)
    ensures
        tag@ == "watermark/"@ + kappa@,
{
    joined("watermark/", kappa)
}

/// What following a chain of successions by one anchor leads to: the chain with
/// the successor of its last anchor behind it, or the error.
pub open spec fn hop(chain: Seq<Seq<char>>, next: Seq<char>) -> Result<
    Seq<Seq<char>>,
    StoreErrorView,
> {
    if chain.contains(next) {
        Err(StoreErrorView::Rejected("succession cycle detected at "@ + next))
    } else if chain.len() > MAX_HOPS {
        Err(StoreErrorView::Rejected("succession chain exceeds 10 hops"@))
    } else {
        Ok(chain.push(next))
    }
}

/// What following successions from the end of a chain leads to: the chain up to
/// the anchor that has no successor, or the error.
pub open spec fn followed(
    successors: Map<Seq<char>, Seq<char>>,
    chain: Seq<Seq<char>>,
) -> Result<Seq<Seq<char>>, StoreErrorView>
    decreases MAX_HOPS + 1 - chain.len(),
{
    if !successors.contains_key(chain.last()) {
        Ok(chain)
    } else {
        match hop(chain, successors[chain.last()]) {
            Err(e) => Err(e),
            Ok(longer) => followed(successors, longer),
        }
    }
}

/// A chain of successions that is being followed.
pub struct SuccessionWalk {
    chain: Vec<String>,
}

impl View for SuccessionWalk {
    type V = Seq<Seq<char>>;

    /// The anchors from the first to the one reached.
    closed spec fn view(&self) -> Seq<Seq<char>> {
        crate::text::texts(self.chain@)
    }
}

impl SuccessionWalk {
    /// There is an anchor, none occurs twice, and no more hops were made than
    /// may be.
    pub open spec fn wf(self) -> bool {
        &&& 0 < self@.len() <= MAX_HOPS + 1
        &&& self@.no_duplicates()
    }

    /// Start at an anchor.
    pub fn new(anchor: &str) -> (walk: Self)
        ensures
            walk.wf(),
            walk@ == seq![anchor@],
    {
        let mut chain: Vec<String> = Vec::new();
        chain.push(anchor.to_owned());
        let walk = SuccessionWalk { chain };
        assert(walk@ =~= seq![anchor@]);
        walk
    }

    /// The anchor that the walk has reached, whose successor is asked for next.
    pub fn current(&self) -> (anchor: &str)
        requires
            self.wf(),
        ensures
            anchor@ == self@.last(),
    {
        self.chain[self.chain.len() - 1].as_str()
    }

    /// Go on to the successor of the anchor reached.
    pub fn advance(&mut self, next: String) -> (hopped: Result<(), StoreError>)
        requires
            old(self).wf(),
        ensures
            final(self).wf(),
            match hopped {
                Ok(()) => hop(old(self)@, next@) == Ok::<Seq<Seq<char>>, StoreErrorView>(
                    final(self)@,
                ),
                Err(e) => {
                    &&& hop(old(self)@, next@) == Err::<Seq<Seq<char>>, StoreErrorView>(e@)
                    &&& final(self)@ == old(self)@
                },
            },
            hopped is Ok <==> !old(self)@.contains(next@) && old(self)@.len() <= 10,
            hopped is Ok ==> final(self)@ == old(self)@.push(next@),
    {
        if contains_text(&self.chain, next.as_str()) {
            return Err(
                StoreError::Rejected(joined("succession cycle detected at ", next.as_str())),
            );
        }
        if self.chain.len() > MAX_HOPS {
            return Err(StoreError::Rejected("succession chain exceeds 10 hops".to_owned()));
        }
        let ghost before = self@;
        let ghost name = next@;
        self.chain.push(next);
        assert(self@ =~= before.push(name));
        Ok(())
    }

    /// The whole chain, from the first anchor to the one reached.
    pub fn into_chain(self) -> (chain: Vec<String>)
        ensures
            crate::text::texts(chain@) == self@,
    {
        self.chain
    }

    /// The anchor reached.
    pub fn into_current(self) -> (anchor: String)
        requires
            self.wf(),
        ensures
            anchor@ == self@.last(),
    {
        let mut chain = self.chain;
        match chain.pop() {
            Some(anchor) => anchor,
            None => String::new(),
        }
    }
}

/// A chain that was followed to its end keeps its beginning, has no anchor
/// twice, makes at most the hops allowed, goes from each anchor to its successor
/// and ends at an anchor without one.
pub proof fn law_succession_chain(
    successors: Map<Seq<char>, Seq<char>>,
    start: Seq<Seq<char>>,
    chain: Seq<Seq<char>>,
)
    requires
        0 < start.len() <= MAX_HOPS + 1,
        start.no_duplicates(),
        followed(successors, start) == Ok::<Seq<Seq<char>>, StoreErrorView>(chain),
    ensures
        start.is_prefix_of(chain),
        chain.no_duplicates(),
        chain.len() <= MAX_HOPS + 1,
        !successors.contains_key(chain.last()),
        forall|i: int|
            start.len() - 1 <= i < chain.len() - 1 ==> successors.contains_key(#[trigger] chain[i])
                && chain[i + 1] == successors[chain[i]],
    decreases MAX_HOPS + 1 - start.len(),
{
    if successors.contains_key(start.last()) {
        let next = successors[start.last()];
        let longer = start.push(next);
        law_succession_chain(successors, longer, chain);
        assert(longer.last() == next);
        assert(chain[start.len() as int] == longer[start.len() as int]);
        assert(chain[start.len() - 1] == longer[start.len() - 1]);
        assert(start =~= chain.take(start.len() as int)) by {
            assert forall|i: int| 0 <= i < start.len() implies start[i] == chain[i] by {
                assert(longer[i] == chain[i]);
            }
        }
    }
}

/// What is followed from a chain ends in nothing but an anchor without a
/// successor or a rejection.
proof fn followed_or_rejected(successors: Map<Seq<char>, Seq<char>>, chain: Seq<Seq<char>>)
    requires
        0 < chain.len() <= MAX_HOPS + 1,
    ensures
        followed(successors, chain) matches Err(e) ==> e is Rejected,
    decreases MAX_HOPS + 1 - chain.len(),
{
    if successors.contains_key(chain.last()) {
        let next = successors[chain.last()];
        if hop(chain, next) is Ok {
            followed_or_rejected(successors, chain.push(next));
        }
    }
}

/// A walk from the anchor over a table of successors reached these chains, one
/// hop after the other, and came out as `outcome`: the last chain, whose end has
/// no successor, or the error of the hop behind it.
pub open spec fn walked(
    successors: Map<Seq<char>, Seq<char>>,
    anchor: Seq<char>,
    chains: Seq<Seq<Seq<char>>>,
    outcome: Result<Seq<Seq<char>>, StoreErrorView>,
) -> bool {
    &&& chains.len() > 0
    &&& chains[0] == seq![anchor]
    &&& forall|i: int|
        0 <= i < chains.len() - 1 ==> successors.contains_key((#[trigger] chains[i]).last())
            && hop(chains[i], successors[chains[i].last()]) == Ok::<
            Seq<Seq<char>>,
            StoreErrorView,
        >(chains[i + 1])
    &&& if successors.contains_key(chains.last().last()) {
        &&& outcome is Err
        &&& outcome == hop(chains.last(), successors[chains.last().last()])
    } else {
        outcome == Ok::<Seq<Seq<char>>, StoreErrorView>(chains.last())
    }
}

/// The walk that goes on from the `i`-th chain comes out as the whole.
proof fn walked_from(
    successors: Map<Seq<char>, Seq<char>>,
    anchor: Seq<char>,
    chains: Seq<Seq<Seq<char>>>,
    outcome: Result<Seq<Seq<char>>, StoreErrorView>,
    i: int,
)
    requires
        walked(successors, anchor, chains, outcome),
        0 <= i < chains.len(),
    ensures
        outcome == followed(successors, chains[i]),
    decreases chains.len() - i,
{
    if i < chains.len() - 1 {
        assert(successors.contains_key(chains[i].last()));
        walked_from(successors, anchor, chains, outcome, i + 1);
    }
}

/// A walk from an anchor returns the chain that starts there, goes from each
/// anchor to its successor, has none twice and ends at one without a successor;
/// just the anchor where it has none. Any other walk is rejected. It comes out as
/// every other walk from there over the same table, so that an anchor resolves
/// to the end of its chain.
pub proof fn law_succession_walk(
    successors: Map<Seq<char>, Seq<char>>,
    anchor: Seq<char>,
    chains: Seq<Seq<Seq<char>>>,
    outcome: Result<Seq<Seq<char>>, StoreErrorView>,
)
    requires
        walked(successors, anchor, chains, outcome),
    ensures
        outcome == followed(successors, seq![anchor]),
        match outcome {
            Ok(chain) => {
                &&& chain.len() > 0
                &&& chain[0] == anchor
                &&& chain.no_duplicates()
                &&& chain.len() <= MAX_HOPS + 1
                &&& forall|i: int|
                    0 <= i < chain.len() - 1 ==> successors.contains_key(#[trigger] chain[i])
                        && chain[i + 1] == successors[chain[i]]
                &&& !successors.contains_key(chain.last())
            },
            Err(e) => e is Rejected,
        },
        !successors.contains_key(anchor) ==> outcome == Ok::<Seq<Seq<char>>, StoreErrorView>(
            seq![anchor],
        ),
{
    let start = seq![anchor];
    walked_from(successors, anchor, chains, outcome, 0);
    followed_or_rejected(successors, start);
    assert(start.last() == anchor);
    if let Ok(chain) = outcome {
        law_succession_chain(successors, start, chain);
        assert(chain[0] == start[0]);
    }
}

/// A walk from an anchor whose successions lead into a cycle is rejected. `path`
/// goes from the anchor to an anchor that it has been at before.
pub proof fn law_succession_cycle_is_rejected(
    successors: Map<Seq<char>, Seq<char>>,
    path: Seq<Seq<char>>,
    back: int,
    chains: Seq<Seq<Seq<char>>>,
    outcome: Result<Seq<Seq<char>>, StoreErrorView>,
)
    requires
        0 <= back < path.len() - 1,
        path.last() == path[back],
        forall|i: int|
            0 <= i < path.len() - 1 ==> successors.contains_key(#[trigger] path[i])
                && successors[path[i]] == path[i + 1],
        walked(successors, path[0], chains, outcome),
    ensures
        outcome matches Err(e) && e is Rejected,
{
    law_succession_walk(successors, path[0], chains, outcome);
    if let Ok(chain) = outcome {
        chain_stays_on_path(successors, path, back, chain, chain.len() - 1);
    }
}

/// A chain from the start of a path that ends in a cycle stays on the path.
proof fn chain_stays_on_path(
    successors: Map<Seq<char>, Seq<char>>,
    path: Seq<Seq<char>>,
    back: int,
    chain: Seq<Seq<char>>,
    n: int,
)
    requires
        0 <= back < path.len() - 1,
        path.last() == path[back],
        forall|i: int|
            0 <= i < path.len() - 1 ==> successors.contains_key(#[trigger] path[i])
                && successors[path[i]] == path[i + 1],
        0 <= n < chain.len(),
        chain[0] == path[0],
        forall|i: int|
            0 <= i < chain.len() - 1 ==> successors.contains_key(#[trigger] chain[i])
                && chain[i + 1] == successors[chain[i]],
    ensures
        successors.contains_key(chain[n]),
        exists|k: int| 0 <= k < path.len() - 1 && #[trigger] path[k] == chain[n],
    decreases n,
{
    if n == 0 {
        assert(path[0] == chain[0]);
    } else {
        chain_stays_on_path(successors, path, back, chain, n - 1);
        let k = choose|k: int| 0 <= k < path.len() - 1 && #[trigger] path[k] == chain[n - 1];
        assert(chain[n] == path[k + 1]);
        if k + 1 == path.len() - 1 {
            assert(path[back] == chain[n]);
        }
    }
}

/// Without a cycle, a chain of ten hops is followed to its end.
pub proof fn law_ten_hops_are_followed(
    successors: Map<Seq<char>, Seq<char>>,
    chain: Seq<Seq<char>>,
    n: int,
)
    requires
        0 < n <= chain.len() <= MAX_HOPS + 1,
        chain.no_duplicates(),
        !successors.contains_key(chain.last()),
        forall|i: int|
            0 <= i < chain.len() - 1 ==> successors.contains_key(#[trigger] chain[i])
                && successors[chain[i]] == chain[i + 1],
    ensures
        followed(successors, chain.take(n)) == Ok::<Seq<Seq<char>>, StoreErrorView>(chain),
    decreases chain.len() - n,
{
    let front = chain.take(n);
    assert(front.last() == chain[n - 1]);
    if n == chain.len() {
        assert(front =~= chain);
    } else {
        assert(successors.contains_key(chain[n - 1]));
        assert(!front.contains(chain[n])) by {
            if front.contains(chain[n]) {
                let k = choose|k: int| 0 <= k < front.len() && front[k] == chain[n];
                assert(chain[k] == chain[n]);
            }
        }
        assert(front.push(chain[n]) =~= chain.take(n + 1));
        law_ten_hops_are_followed(successors, chain, n + 1);
    }
}

/// The record at the position binds the target, and none before it does.
pub open spec fn binds_first(records: Seq<String>, target: Seq<char>, i: int) -> bool {
    &&& 0 <= i < records.len()
    &&& json_text_at(records[i]@, "target"@) == Some(target)
    &&& forall|j: int|
        0 <= j < i ==> json_text_at((#[trigger] records[j])@, "target"@) != Some(target)
}

/// A binding is added where no record binds its target. Otherwise the first record that
/// does decides: it is kept where it is the new one, and else gives way to it.
pub proof fn law_binding_change(
    records: &Vec<String>,
    target: &str,
    json: &str,
    change: BindingChange,
    i: int,
)
    requires
        call_ensures(binding_change, (records, target, json), change),
    ensures
        change is Insert <==> forall|j: int|
            0 <= j < records@.len() ==> json_text_at((#[trigger] records@[j])@, "target"@) != Some(
                target@,
            ),
        binds_first(records@, target@, i) && records@[i]@ == json@ ==> change is Keep,
        binds_first(records@, target@, i) && records@[i]@ != json@ ==> (
        change matches BindingChange::Replace(old) && old@ == records@[i]@),
{
    let texts = crate::text::texts(records@);
    let targets = targets_of(texts);
    assert forall|j: int| 0 <= j < records@.len() implies #[trigger] targets[j] == json_text_at(
        records@[j]@,
        "target"@,
    ) by {
        assert(texts[j] == records@[j]@);
    }
    if change is Insert {
        assert forall|j: int| 0 <= j < records@.len() implies json_text_at(
            (#[trigger] records@[j])@,
            "target"@,
        ) != Some(target@) by {
            assert(targets[j] != Some(target@));
        }
    } else {
        let k = choose|k: int|
            {
                &&& 0 <= k < targets.len()
                &&& #[trigger] targets[k] == Some(target@)
                &&& forall|j: int| 0 <= j < k ==> #[trigger] targets[j] != Some(target@)
                &&& change@ == if texts[k] == json@ {
                    ChangeView::Keep
                } else {
                    ChangeView::Replace(texts[k])
                }
            };
        assert(texts[k] == records@[k]@);
        assert(targets[k] == json_text_at(records@[k]@, "target"@));
        if binds_first(records@, target@, i) {
            assert(targets[i] == Some(target@));
            if i < k {
                assert(targets[i] != Some(target@));
            }
            if k < i {
                assert(json_text_at(records@[k]@, "target"@) != Some(target@));
            }
        }
    }
    if binds_first(records@, target@, i) {
        assert(targets[i] == Some(target@));
    }
}

/// The change that the bound targets call for is decided by the first that is the
/// target, and is an addition where none is.
pub proof fn law_change_by_targets(
    records: &Vec<String>,
    targets: &Vec<Option<String>>,
    target: &str,
    json: &str,
    change: BindingChange,
    i: int,
)
    requires
        call_ensures(change_for, (records, targets, target, json), change),
        targets@.len() == records@.len(),
        0 <= i < records@.len(),
        forall|j: int|
            0 <= j < i ==> !((#[trigger] targets@[j]) matches Some(text) && text@ == target@),
    ensures
        (targets@[i] matches Some(text) && text@ == target@) && records@[i]@ == json@
            ==> change is Keep,
        (targets@[i] matches Some(text) && text@ == target@) && records@[i]@ != json@ ==> (
        change matches BindingChange::Replace(old) && old@ == records@[i]@),
        !(targets@[i] matches Some(text) && text@ == target@) && i == records@.len() - 1
            ==> change is Insert,
{
    let texts = crate::text::texts(records@);
    let bound = targets_view(targets@);
    assert(texts[i] == records@[i]@);
    assert forall|j: int| 0 <= j < records@.len() implies (#[trigger] bound[j] == Some(target@)
        <==> (targets@[j] matches Some(text) && text@ == target@)) by {}
    assert forall|j: int| 0 <= j < i implies #[trigger] bound[j] != Some(target@) by {
        assert(!(targets@[j] matches Some(text) && text@ == target@));
    }
    assert(bound[i] == Some(target@) <==> (targets@[i] matches Some(text) && text@ == target@));
    if !(change is Insert) {
        let k = choose|k: int|
            {
                &&& 0 <= k < bound.len()
                &&& #[trigger] bound[k] == Some(target@)
                &&& forall|j: int| 0 <= j < k ==> #[trigger] bound[j] != Some(target@)
                &&& change@ == if texts[k] == json@ {
                    ChangeView::Keep
                } else {
                    ChangeView::Replace(texts[k])
                }
            };
        assert(k >= i);
        if k > i {
            assert(bound[i] != Some(target@));
        }
    }
}

/// The records that bind the target, in their order.
pub open spec fn binding_records(records: Seq<Seq<char>>, target: Seq<char>) -> Seq<Seq<char>> {
    records.filter(|r: Seq<char>| json_text_at(r, "target"@) == Some(target))
}

/// The records found among the first are those of them that bind the target.
proof fn bound_to_filters(records: Seq<Seq<char>>, target: Seq<char>, n: int)
    requires
        0 <= n <= records.len(),
    ensures
        bound_to(records.take(n), targets_of(records), target) == binding_records(
            records.take(n),
            target,
        ),
    decreases n,
{
    reveal(Seq::filter);
    if n > 0 {
        bound_to_filters(records, target, n - 1);
        assert(records.take(n).drop_last() =~= records.take(n - 1));
        assert(targets_of(records)[n - 1] == json_target(records[n - 1]));
    }
}

/// Deleting a binding finds the records that bind its target: all of them, in their
/// order, and no other.
pub proof fn law_bindings_to_delete(records: &Vec<String>, target: &str, found: Vec<String>)
    requires
        call_ensures(bindings_to_delete, (records, target), found),
    ensures
        crate::text::texts(found@) == binding_records(crate::text::texts(records@), target@),
{
    let texts = crate::text::texts(records@);
    bound_to_filters(texts, target@, texts.len() as int);
    assert(texts.take(texts.len() as int) =~= texts);
}

/// The positions, in ascending order, are all those of the target and no other.
pub open spec fn positions_of(
    targets: Seq<Option<Seq<char>>>,
    target: Seq<char>,
    n: int,
    at: Seq<int>,
) -> bool {
    &&& forall|k: int|
        0 <= k < at.len() ==> 0 <= #[trigger] at[k] < n && targets[at[k]] == Some(target)
    &&& forall|k: int, l: int| 0 <= k < l < at.len() ==> #[trigger] at[k] < #[trigger] at[l]
    &&& forall|i: int|
        0 <= i < n && #[trigger] targets[i] == Some(target) ==> at.contains(i)
}

/// Where the records that are found stand.
proof fn bound_to_positions(
    records: Seq<Seq<char>>,
    targets: Seq<Option<Seq<char>>>,
    target: Seq<char>,
) -> (at: Seq<int>)
    requires
        records.len() <= targets.len(),
    ensures
        positions_of(targets, target, records.len() as int, at),
        bound_to(records, targets, target) == at.map_values(|i: int| records[i]),
    decreases records.len(),
{
    if records.len() == 0 {
        let at = Seq::<int>::empty();
        assert(bound_to(records, targets, target) =~= at.map_values(|i: int| records[i]));
        at
    } else {
        let n = records.len() - 1;
        let front = bound_to_positions(records.drop_last(), targets, target);
        let at = if targets[n] == Some(target) {
            front.push(n)
        } else {
            front
        };
        assert(bound_to(records, targets, target) =~= at.map_values(|i: int| records[i])) by {
            assert forall|k: int| 0 <= k < front.len() implies records[#[trigger] front[k]]
                == records.drop_last()[front[k]] by {}
        }
        assert forall|i: int| 0 <= i < n + 1 && #[trigger] targets[i] == Some(
            target,
        ) implies at.contains(i) by {
            if i < n {
                let k = choose|k: int| 0 <= k < front.len() && front[k] == i;
                assert(at[k] == i);
            } else {
                assert(at[front.len() as int] == i);
            }
        }
        at
    }
}

/// The records that the bound targets pick out are those at the positions of the
/// target, in ascending order.
pub proof fn law_records_bound(
    records: &Vec<String>,
    targets: &Vec<Option<String>>,
    target: &str,
    found: Vec<String>,
) -> (at: Seq<int>)
    requires
        call_ensures(records_bound, (records, targets, target), found),
        targets@.len() == records@.len(),
    ensures
        at.len() == found@.len(),
        forall|k: int|
            0 <= k < at.len() ==> 0 <= #[trigger] at[k] < records@.len() && found@[k]@
                == records@[at[k]]@ && (targets@[at[k]] matches Some(text) && text@ == target@),
        forall|k: int, l: int| 0 <= k < l < at.len() ==> #[trigger] at[k] < #[trigger] at[l],
        forall|i: int|
            0 <= i < records@.len() && ((#[trigger] targets@[i]) matches Some(text) && text@
                == target@) ==> at.contains(i),
{
    let texts = crate::text::texts(records@);
    let bound = targets_view(targets@);
    let at = bound_to_positions(texts, bound, target@);
    assert(crate::text::texts(found@).len() == found@.len());
    assert forall|k: int| 0 <= k < at.len() implies 0 <= #[trigger] at[k] < records@.len()
        && found@[k]@ == records@[at[k]]@ && (targets@[at[k]] matches Some(text) && text@
        == target@) by {
        assert(bound[at[k]] == Some(target@));
        assert(crate::text::texts(found@)[k] == texts[at[k]]);
    }
    assert forall|i: int|
        0 <= i < records@.len() && ((#[trigger] targets@[i]) matches Some(text) && text@
            == target@) implies at.contains(i) by {
        assert(bound[i] == Some(target@));
    }
    at
}

/// The bindings of an asserter are found by their positions: all of them, in ascending
/// order, and no other.
pub proof fn law_bindings_by_asserter(
    targets: &Vec<String>,
    asserter: &str,
    found: Vec<usize>,
    i: usize,
)
    requires
        call_ensures(bindings_by_asserter, (targets, asserter), found),
        i < targets@.len(),
    ensures
        targets@[i as int]@ == asserter@ <==> found@.contains(i),
        forall|k: int, l: int|
            0 <= k < l < found@.len() ==> (#[trigger] found@[k]) < (#[trigger] found@[l]),
        forall|k: int| 0 <= k < found@.len() ==> (#[trigger] found@[k]) < targets@.len(),
{
    let texts = crate::text::texts(targets@);
    assert(texts[i as int] == targets@[i as int]@);
    if targets@[i as int]@ == asserter@ {
        let k = choose|k: int| 0 <= k < found@.len() && #[trigger] found@[k] == i;
        assert(found@[k] == i);
    }
    if found@.contains(i) {
        let k = choose|k: int| 0 <= k < found@.len() && found@[k] == i;
        assert(texts[found@[k] as int] == asserter@);
    }
}

/// A watermark is kept under its own address behind a fixed beginning, so that no two
/// addresses share a tag.
pub proof fn law_watermark_tag(kappa: &str, tag: String, other: &str, other_tag: String)
    requires
        call_ensures(watermark_tag, (kappa,), tag),
        call_ensures(watermark_tag, (other,), other_tag),
    ensures
        tag@ == "watermark/"@ + kappa@,
        tag@ == other_tag@ ==> kappa@ == other@,
{
    let n = "watermark/"@.len() as int;
    assert(tag@.skip(n) =~= kappa@);
    assert(other_tag@.skip(n) =~= other@);
}

/// A hop is made exactly where the next anchor is not in the chain yet and the chain
/// has made fewer than ten hops; it puts the anchor behind the chain. A return to an
/// anchor is rejected with it, one hop too many with the limit.
pub proof fn law_hop(chain: Seq<Seq<char>>, next: Seq<char>)
    ensures
        hop(chain, next) is Ok <==> !chain.contains(next) && chain.len() <= 10,
        hop(chain, next) matches Ok(longer) ==> longer == chain.push(next),
        chain.contains(next) ==> hop(chain, next) == Err::<Seq<Seq<char>>, StoreErrorView>(
            StoreErrorView::Rejected("succession cycle detected at "@ + next),
        ),
        !chain.contains(next) && chain.len() > 10 ==> hop(chain, next) == Err::<
            Seq<Seq<char>>,
            StoreErrorView,
        >(StoreErrorView::Rejected("succession chain exceeds 10 hops"@)),
{
}

/// A walk starts at its anchor alone.
pub proof fn law_walk_starts_at_anchor(anchor: &str, walk: SuccessionWalk, chain: Vec<String>)
    requires
        call_ensures(SuccessionWalk::new, (anchor,), walk),
        call_ensures(SuccessionWalk::into_chain, (walk,), chain),
    ensures
        chain@.len() == 1,
        chain@[0]@ == anchor@,
{
    assert(crate::text::texts(chain@).len() == chain@.len());
    assert(crate::text::texts(chain@)[0] == chain@[0]@);
}

/// The anchor that a walk has reached is the last of its chain, however it is asked for.
pub proof fn law_walk_ends_at_current(
    walk: SuccessionWalk,
    chain: Vec<String>,
    current: &str,
    last: String,
)
    requires
        walk.wf(),
        call_ensures(SuccessionWalk::into_chain, (walk,), chain),
        call_ensures(SuccessionWalk::current, (&walk,), current),
        call_ensures(SuccessionWalk::into_current, (walk,), last),
    ensures
        chain@.len() > 0,
        current@ == chain@.last()@,
        last@ == chain@.last()@,
{
    assert(crate::text::texts(chain@).len() == chain@.len());
    assert(crate::text::texts(chain@)[chain@.len() - 1] == chain@[chain@.len() - 1]@);
}

/// Without a cycle, a chain of more than ten hops is rejected with the limit, however
/// far it is followed already.
pub proof fn law_eleven_hops_are_rejected(
    successors: Map<Seq<char>, Seq<char>>,
    chain: Seq<Seq<char>>,
    n: int,
)
    requires
        0 < n <= 11 < chain.len(),
        chain.no_duplicates(),
        forall|i: int|
            0 <= i < chain.len() - 1 ==> successors.contains_key(#[trigger] chain[i])
                && successors[chain[i]] == chain[i + 1],
    ensures
        followed(successors, chain.take(n)) == Err::<Seq<Seq<char>>, StoreErrorView>(
            StoreErrorView::Rejected("succession chain exceeds 10 hops"@),
        ),
    decreases 12 - n,
{
    let front = chain.take(n);
    assert(front.last() == chain[n - 1]);
    assert(successors.contains_key(chain[n - 1]));
    assert(!front.contains(chain[n])) by {
        if front.contains(chain[n]) {
            let k = choose|k: int| 0 <= k < front.len() && front[k] == chain[n];
            assert(chain[k] == chain[n]);
        }
    }
    if n < 11 {
        assert(front.push(chain[n]) =~= chain.take(n + 1));
        law_eleven_hops_are_rejected(successors, chain, n + 1);
    }
}

/// A walk goes on exactly where the next anchor is not in its chain yet and the chain
/// has made fewer than ten hops. Then the anchor is the last of the chain; otherwise the
/// chain stays, and the anchor that came again or the limit is told.
pub proof fn law_walk_goes_on(
    walk: &mut SuccessionWalk,
    next: String,
    hopped: Result<(), StoreError>,
)
    requires
        call_ensures(SuccessionWalk::advance, (walk, next), hopped),
    ensures
        hopped is Ok <==> !old(walk)@.contains(next@) && old(walk)@.len() <= 10,
        hopped is Ok ==> final(walk)@ == old(walk)@.push(next@),
        hopped is Err ==> final(walk)@ == old(walk)@,
        old(walk)@.contains(next@) ==> (hopped matches Err(StoreError::Rejected(text)) && text@
            == "succession cycle detected at "@ + next@),
        !old(walk)@.contains(next@) && old(walk)@.len() > 10 ==> (hopped matches Err(
            StoreError::Rejected(text),
        ) && text@ == "succession chain exceeds 10 hops"@),
{
}

} // verus!
