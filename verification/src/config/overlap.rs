//! Fixed windows of one scope must not overlap. The spans of the fixed
//! windows are put in order, by scope and then by start, and each span is
//! held against the one that follows it.
use vstd::prelude::*;
use vstd::string::*;
use vstd::utf8::encode_utf8;
use crate::config::error::{records, ErrorRecord, ValidationError};
use crate::config::validator::{found_if, lemma_found_more, lemma_found_none, record, report};
use crate::text::bytes_equal;

verus! {

/// The span of a fixed window: the key of its scope, and the raw start and
/// end of the half-open interval in which it is active.
pub struct FixedSpan {
    pub scope: Seq<char>,
    pub start: int,
    pub end: int,
}

/// The span of a fixed window, as the validation holds it.
pub struct FixedEntry {
    pub scope: String,
    pub start: i128,
    pub end: i128,
}

impl View for FixedEntry {
    type V = FixedSpan;

    open spec fn view(&self) -> FixedSpan {
        FixedSpan { scope: self.scope@, start: self.start as int, end: self.end as int }
    }
}

/// The spans that a list of entries holds.
pub open spec fn spans(entries: Seq<FixedEntry>) -> Seq<FixedSpan> {
    entries.map_values(|e: FixedEntry| e@)
}

/// Whether two byte strings agree on their first `k` bytes.
pub open spec fn agree_until(a: Seq<u8>, b: Seq<u8>, k: int) -> bool {
    &&& 0 <= k <= a.len()
    &&& k <= b.len()
    &&& forall|j: int| 0 <= j < k ==> a[j] == b[j]
}

/// Whether `a` comes strictly before `b` in the order of a dictionary: at
/// the first place where they differ `a` has ended or has the smaller byte.
pub open spec fn bytes_before(a: Seq<u8>, b: Seq<u8>) -> bool {
    exists|k: int| #[trigger]
        agree_until(a, b, k) && k < b.len() && (k == a.len() || a[k] < b[k])
}

/// Whether the text `a` comes strictly before the text `b`, by the bytes of
/// their UTF-8 encodings.
pub open spec fn text_before(a: Seq<char>, b: Seq<char>) -> bool {
    bytes_before(encode_utf8(a), encode_utf8(b))
}

/// Whether span `a` belongs strictly after span `b`: its scope comes later,
/// or the scopes are written alike and it starts later.
pub open spec fn sorts_after(a: FixedSpan, b: FixedSpan) -> bool {
    text_before(b.scope, a.scope) || (same_scope(a, b) && b.start < a.start)
}

/// A sorted list with one more span: the span goes behind every span that
/// does not belong after it, so spans that compare alike keep their order.
pub open spec fn insert_span(sorted: Seq<FixedSpan>, span: FixedSpan) -> Seq<FixedSpan>
    decreases sorted.len(),
{
    if sorted.len() == 0 {
        seq![span]
    } else if sorts_after(sorted.last(), span) {
        insert_span(sorted.drop_last(), span).push(sorted.last())
    } else {
        sorted.push(span)
    }
}

/// The first `count` spans in order, by scope and then by start; spans that
/// compare alike stay in the order in which they were declared.
pub open spec fn sorted_spans(spans: Seq<FixedSpan>, count: nat) -> Seq<FixedSpan>
    decreases count,
{
    if count == 0 {
        Seq::empty()
    } else {
        insert_span(sorted_spans(spans, (count - 1) as nat), spans[count - 1])
    }
}

/// Whether two spans have scopes that are written alike.
pub open spec fn same_scope(first: FixedSpan, second: FixedSpan) -> bool {
    encode_utf8(first.scope) == encode_utf8(second.scope)
}

/// Whether a span overlaps the one that follows it in the order: both have
/// the same scope, and the second starts before the first has ended.
pub open spec fn runs_into(first: FixedSpan, second: FixedSpan) -> bool {
    same_scope(first, second) && second.start < first.end
}

/// The findings about the first `pairs` neighbouring pairs of an ordered
/// list of spans: one for each pair that overlaps.
pub open spec fn neighbour_errors(sorted: Seq<FixedSpan>, pairs: nat) -> Seq<ErrorRecord>
    decreases pairs,
{
    if pairs == 0 {
        Seq::empty()
    } else {
        neighbour_errors(sorted, (pairs - 1) as nat) + found_if(
            runs_into(sorted[pairs - 1], sorted[pairs as int]),
            record(
                "behavior_windows.schedule"@,
                "fixed windows overlap for the same scope"@,
                Some(sorted[pairs - 1].scope),
            ),
        )
    }
}

/// The findings about a list of spans: one for each span that overlaps its
/// successor once the spans are in order.
pub open spec fn overlap_errors(spans: Seq<FixedSpan>) -> Seq<ErrorRecord> {
    let sorted = sorted_spans(spans, spans.len());
    if sorted.len() == 0 {
        Seq::empty()
    } else {
        neighbour_errors(sorted, (sorted.len() - 1) as nat)
    }
}

/// How two byte strings stand to each other: -1 where the first comes
/// before the second, 1 where it comes after, 0 where they are equal.
fn order_bytes(a: &[u8], b: &[u8]) -> (r: i8)
    ensures
        r == -1 || r == 0 || r == 1,
        (r == -1) == bytes_before(a@, b@),
        (r == 1) == bytes_before(b@, a@),
        (r == 0) == (a@ == b@),
{
    let n: usize = a.len();
    let m: usize = b.len();
    let mut i: usize = 0;
    while i < n && i < m
        invariant
            n == a@.len(),
            m == b@.len(),
            agree_until(a@, b@, i as int),
        decreases n - i,
    {
        if a[i] < b[i] {
            proof {
                lemma_first_difference(a@, b@, i as int);
            }
            return -1;
        }
        if a[i] > b[i] {
            proof {
                assert(agree_until(b@, a@, i as int));
                lemma_first_difference(b@, a@, i as int);
            }
            return 1;
        }
        i += 1;
    }
    proof {
        assert(agree_until(b@, a@, i as int));
        lemma_first_difference(a@, b@, i as int);
        lemma_first_difference(b@, a@, i as int);
        if n == m {
            assert(a@ =~= b@);
        }
    }
    if n < m {
        -1
    } else if n > m {
        1
    } else {
        0
    }
}

/// Two byte strings that agree on their first `k` bytes are ordered by what
/// stands at place `k`.
proof fn lemma_first_difference(a: Seq<u8>, b: Seq<u8>, k: int)
    requires
        agree_until(a, b, k),
        k == a.len() || k == b.len() || a[k] != b[k],
    ensures
        bytes_before(a, b) == (k < b.len() && (k == a.len() || a[k] < b[k])),
        (k == a.len() || k == b.len()) ==> (a == b) == (a.len() == b.len()),
        (k < a.len() && k < b.len()) ==> a != b,
{
    if bytes_before(a, b) {
        let w = choose|w: int| #[trigger]
            agree_until(a, b, w) && w < b.len() && (w == a.len() || a[w] < b[w]);
        if w < k {
            assert(a[w] == b[w]);
        } else if w > k {
            assert(a[k] == b[k]);
        }
        assert(w == k);
    }
    if a.len() == b.len() && (k == a.len() || k == b.len()) {
        assert(a =~= b);
    }
}

fn entry_after(a: &FixedEntry, b: &FixedEntry) -> (r: bool)
    ensures
        r == sorts_after(a@, b@),
{
    let order: i8 = order_bytes(b.scope.as_str().as_bytes(), a.scope.as_str().as_bytes());
    if order == -1 {
        true
    } else if order == 0 {
        b.start < a.start
    } else {
        false
    }
}

/// Where a span goes into a sorted list: behind the last span that does not
/// belong after it.
proof fn lemma_insert_position(sorted: Seq<FixedSpan>, span: FixedSpan, at: int)
    requires
        0 <= at <= sorted.len(),
        forall|j: int| at <= j < sorted.len() ==> sorts_after(#[trigger] sorted[j], span),
        at == 0 || !sorts_after(sorted[at - 1], span),
    ensures
        insert_span(sorted, span) == sorted.insert(at, span),
    decreases sorted.len(),
{
    if sorted.len() == 0 {
        assert(sorted.insert(at, span) =~= seq![span]);
    } else if at == sorted.len() {
        assert(sorted.insert(at, span) =~= sorted.push(span));
    } else {
        assert(sorts_after(sorted[sorted.len() - 1], span));
        lemma_insert_position(sorted.drop_last(), span, at);
        assert(sorted.drop_last().insert(at, span).push(sorted.last()) =~= sorted.insert(
            at,
            span,
        ));
    }
}

fn insert_entry(sorted: &mut Vec<FixedEntry>, entry: FixedEntry)
    ensures
        spans(final(sorted)@) == insert_span(spans(old(sorted)@), entry@),
{
    let mut at: usize = sorted.len();
    while at > 0 && entry_after(&sorted[at - 1], &entry)
        invariant
            at <= sorted@.len(),
            sorted@ == old(sorted)@,
            forall|j: int| at <= j < sorted@.len() ==> sorts_after(#[trigger] sorted@[j]@, entry@),
        decreases at,
    {
        at -= 1;
    }
    proof {
        let before = spans(sorted@);
        assert forall|j: int| at <= j < before.len() implies sorts_after(
            #[trigger] before[j],
            entry@,
        ) by {
            assert(before[j] == sorted@[j]@);
        }
        lemma_insert_position(before, entry@, at as int);
    }
    sorted.insert(at, entry);
    assert(spans(sorted@) =~= spans(old(sorted)@).insert(at as int, entry@));
}

/// The entries in order, by scope and then by start.
pub fn sort_entries(entries: Vec<FixedEntry>) -> (sorted: Vec<FixedEntry>)
    ensures
        spans(sorted@) == sorted_spans(spans(entries@), entries@.len()),
{
    let mut sorted: Vec<FixedEntry> = Vec::new();
    let ghost all = spans(entries@);
    assert(spans(sorted@) =~= Seq::<FixedSpan>::empty());
    for entry in it: entries
        invariant
            all == spans(entries@),
            spans(sorted@) == sorted_spans(all, it.index@ as nat),
    {
        assert(entry@ == all[it.index@]);
        insert_entry(&mut sorted, entry);
    }
    sorted
}

/// Appends one finding for each fixed window that overlaps its successor in
/// the order of the spans.
pub fn report_overlaps(entries: Vec<FixedEntry>, errors: &mut Vec<ValidationError>)
    ensures
        records(final(errors)@) == records(old(errors)@) + overlap_errors(spans(entries@)),
{
    let ghost base = records(errors@);
    let sorted = sort_entries(entries);
    proof {
        lemma_found_none(base);
    }
    if sorted.len() == 0 {
        return ;
    }
    let pairs: usize = sorted.len() - 1;
    let mut i: usize = 0;
    while i < pairs
        invariant
            i <= pairs,
            pairs == sorted@.len() - 1,
            records(errors@) == base + neighbour_errors(spans(sorted@), i as nat),
        decreases pairs - i,
    {
        let first = &sorted[i];
        let second = &sorted[i + 1];
        report(
            errors,
            bytes_equal(first.scope.as_str().as_bytes(), second.scope.as_str().as_bytes())
                && second.start < first.end,
            "behavior_windows.schedule",
            "fixed windows overlap for the same scope",
            Some(first.scope.clone()),
        );
        proof {
            let listed = spans(sorted@);
            assert(listed[i as int] == first@);
            assert(listed[i + 1] == second@);
            lemma_found_more(
                base,
                neighbour_errors(listed, i as nat),
                found_if(
                    runs_into(listed[i as int], listed[i + 1]),
                    record(
                        "behavior_windows.schedule"@,
                        "fixed windows overlap for the same scope"@,
                        Some(listed[i as int].scope),
                    ),
                ),
            );
        }
        i += 1;
    }
}


/// No byte string comes before itself.
pub proof fn lemma_before_irreflexive(a: Seq<u8>)
    ensures
        !bytes_before(a, a),
{
    if bytes_before(a, a) {
        let k = choose|k: int| #[trigger]
            agree_until(a, a, k) && k < a.len() && (k == a.len() || a[k] < a[k]);
        assert(false);
    }
}

/// What comes before something that comes before a third comes before the
/// third.
pub proof fn lemma_before_transitive(a: Seq<u8>, b: Seq<u8>, c: Seq<u8>)
    requires
        bytes_before(a, b),
        bytes_before(b, c),
    ensures
        bytes_before(a, c),
{
    let first = choose|k: int| #[trigger]
        agree_until(a, b, k) && k < b.len() && (k == a.len() || a[k] < b[k]);
    let second = choose|k: int| #[trigger]
        agree_until(b, c, k) && k < c.len() && (k == b.len() || b[k] < c[k]);
    if first <= second {
        assert(agree_until(a, c, first));
        if first < second {
            assert(b[first] == c[first]);
        }
    } else {
        assert(agree_until(a, c, second));
        assert(a[second] == b[second]);
    }
}

/// Of two byte strings that agree on their first `k` bytes and differ, one
/// comes before the other.
proof fn lemma_before_total_from(a: Seq<u8>, b: Seq<u8>, k: int)
    requires
        agree_until(a, b, k),
        a != b,
    ensures
        bytes_before(a, b) || bytes_before(b, a),
    decreases a.len() - k,
{
    assert(agree_until(b, a, k));
    if k == a.len() || k == b.len() {
        if a.len() == b.len() {
            assert(a =~= b);
        }
    } else if a[k] == b[k] {
        assert(agree_until(a, b, k + 1));
        lemma_before_total_from(a, b, k + 1);
    }
}

/// Of two different byte strings one comes before the other.
pub proof fn lemma_before_total(a: Seq<u8>, b: Seq<u8>)
    requires
        a != b,
    ensures
        bytes_before(a, b) || bytes_before(b, a),
{
    assert(agree_until(a, b, 0));
    lemma_before_total_from(a, b, 0);
}

/// Whether span `a` may stand before span `b` in the order.
pub open spec fn stands_before(a: FixedSpan, b: FixedSpan) -> bool {
    !sorts_after(a, b)
}

/// A span that belongs after another does not also belong before it.
pub proof fn lemma_after_is_one_way(a: FixedSpan, b: FixedSpan)
    requires
        sorts_after(a, b),
    ensures
        stands_before(b, a),
{
    let x = encode_utf8(a.scope);
    let y = encode_utf8(b.scope);
    lemma_before_irreflexive(x);
    if bytes_before(x, y) && bytes_before(y, x) {
        lemma_before_transitive(x, y, x);
    }
}

/// The order of the spans carries over: what may stand before something
/// that may stand before a third may stand before the third.
pub proof fn lemma_stands_before_transitive(a: FixedSpan, b: FixedSpan, c: FixedSpan)
    requires
        stands_before(a, b),
        stands_before(b, c),
    ensures
        stands_before(a, c),
{
    let x = encode_utf8(a.scope);
    let y = encode_utf8(b.scope);
    let z = encode_utf8(c.scope);
    lemma_before_irreflexive(x);
    lemma_before_irreflexive(y);
    lemma_before_irreflexive(z);
    if x != y {
        lemma_before_total(x, y);
    }
    if y != z {
        lemma_before_total(y, z);
    }
    if bytes_before(x, y) && bytes_before(y, z) {
        lemma_before_transitive(x, y, z);
    }
    if bytes_before(z, x) {
        if bytes_before(x, y) {
            lemma_before_transitive(z, x, y);
        }
        if bytes_before(y, z) {
            lemma_before_transitive(y, z, x);
        }
    }
}

/// Of three spans in order whose first and last have the same scope, the
/// middle one has that scope too.
pub proof fn lemma_scope_between(a: FixedSpan, b: FixedSpan, c: FixedSpan)
    requires
        stands_before(a, b),
        stands_before(b, c),
        same_scope(a, c),
    ensures
        same_scope(a, b),
{
    let x = encode_utf8(a.scope);
    let y = encode_utf8(b.scope);
    lemma_before_irreflexive(x);
    if x != y {
        lemma_before_total(x, y);
    }
}


/// Whether every span of a list may stand before all spans behind it.
pub open spec fn in_order(list: Seq<FixedSpan>) -> bool {
    forall|p: int, q: int|
        0 <= p < q < list.len() ==> stands_before(#[trigger] list[p], #[trigger] list[q])
}

/// Whether every span of a list ends after it starts.
pub open spec fn proper(list: Seq<FixedSpan>) -> bool {
    forall|i: int| 0 <= i < list.len() ==> (#[trigger] list[i]).start < list[i].end
}

/// The place at which a span goes into a sorted list.
pub open spec fn insert_place(sorted: Seq<FixedSpan>, span: FixedSpan) -> int
    decreases sorted.len(),
{
    if sorted.len() == 0 {
        0
    } else if sorts_after(sorted.last(), span) {
        insert_place(sorted.drop_last(), span)
    } else {
        sorted.len() as int
    }
}

/// A span goes into a sorted list at its place: behind the last span that
/// does not belong after it, and before all that do.
proof fn lemma_insert_place(sorted: Seq<FixedSpan>, span: FixedSpan)
    ensures
        0 <= insert_place(sorted, span) <= sorted.len(),
        forall|j: int|
            insert_place(sorted, span) <= j < sorted.len() ==> sorts_after(
                #[trigger] sorted[j],
                span,
            ),
        insert_place(sorted, span) == 0 || !sorts_after(
            sorted[insert_place(sorted, span) - 1],
            span,
        ),
        insert_span(sorted, span) == sorted.insert(insert_place(sorted, span), span),
    decreases sorted.len(),
{
    if sorted.len() > 0 && sorts_after(sorted.last(), span) {
        let shorter = sorted.drop_last();
        lemma_insert_place(shorter, span);
        let at = insert_place(shorter, span);
        assert forall|j: int| at <= j < sorted.len() implies sorts_after(
            #[trigger] sorted[j],
            span,
        ) by {
            if j < shorter.len() {
                assert(sorted[j] == shorter[j]);
            }
        }
        if at > 0 {
            assert(sorted[at - 1] == shorter[at - 1]);
        }
    }
    lemma_insert_position(sorted, span, insert_place(sorted, span));
}

/// A list in order is in order with one more span.
proof fn lemma_insert_keeps_order(sorted: Seq<FixedSpan>, span: FixedSpan)
    requires
        in_order(sorted),
    ensures
        in_order(insert_span(sorted, span)),
{
    lemma_insert_place(sorted, span);
    let at = insert_place(sorted, span);
    let longer = sorted.insert(at, span);
    assert forall|p: int, q: int| 0 <= p < q < longer.len() implies stands_before(
        #[trigger] longer[p],
        #[trigger] longer[q],
    ) by {
        if q < at {
            assert(longer[p] == sorted[p] && longer[q] == sorted[q]);
        } else if q == at {
            assert(longer[p] == sorted[p] && longer[q] == span);
            if p < at - 1 {
                assert(stands_before(sorted[p], sorted[at - 1]));
                lemma_stands_before_transitive(sorted[p], sorted[at - 1], span);
            }
        } else if p < at {
            assert(longer[p] == sorted[p] && longer[q] == sorted[q - 1]);
        } else if p == at {
            assert(longer[p] == span && longer[q] == sorted[q - 1]);
            lemma_after_is_one_way(sorted[q - 1], span);
        } else {
            assert(longer[p] == sorted[p - 1] && longer[q] == sorted[q - 1]);
        }
    }
}

/// A list of proper spans is one with one more proper span.
proof fn lemma_insert_keeps_proper(sorted: Seq<FixedSpan>, span: FixedSpan)
    requires
        proper(sorted),
        span.start < span.end,
    ensures
        proper(insert_span(sorted, span)),
{
    lemma_insert_place(sorted, span);
    let at = insert_place(sorted, span);
    let longer = sorted.insert(at, span);
    assert forall|i: int| 0 <= i < longer.len() implies (#[trigger] longer[i]).start
        < longer[i].end by {
        if i < at {
            assert(longer[i] == sorted[i]);
        } else if i > at {
            assert(longer[i] == sorted[i - 1]);
        }
    }
}

/// The sorted spans are in order, and proper where the spans are.
pub proof fn lemma_sorted_in_order(spans: Seq<FixedSpan>, count: nat)
    requires
        count <= spans.len(),
    ensures
        in_order(sorted_spans(spans, count)),
        sorted_spans(spans, count).len() == count,
        proper(spans) ==> proper(sorted_spans(spans, count)),
    decreases count,
{
    if count > 0 {
        let earlier = sorted_spans(spans, (count - 1) as nat);
        lemma_sorted_in_order(spans, (count - 1) as nat);
        lemma_insert_keeps_order(earlier, spans[count - 1]);
        lemma_insert_place(earlier, spans[count - 1]);
        if proper(spans) {
            lemma_insert_keeps_proper(earlier, spans[count - 1]);
        }
    }
}

/// Whether `places` says where each of the first spans stands in a list:
/// each at a place of its own.
pub open spec fn placed(spans: Seq<FixedSpan>, count: nat, list: Seq<FixedSpan>, places: Seq<int>)
    -> bool {
    &&& places.len() == count
    &&& forall|i: int|
        0 <= i < count ==> 0 <= #[trigger] places[i] < list.len() && list[places[i]] == spans[i]
    &&& forall|i: int, j: int| 0 <= i < j < count ==> #[trigger] places[i] != #[trigger] places[j]
}

/// Every span has a place of its own among the sorted spans.
pub proof fn lemma_places(spans: Seq<FixedSpan>, count: nat) -> (places: Seq<int>)
    requires
        count <= spans.len(),
    ensures
        placed(spans, count, sorted_spans(spans, count), places),
    decreases count,
{
    if count == 0 {
        Seq::empty()
    } else {
        let earlier = sorted_spans(spans, (count - 1) as nat);
        let span = spans[count - 1];
        let before = lemma_places(spans, (count - 1) as nat);
        lemma_insert_place(earlier, span);
        let at = insert_place(earlier, span);
        let longer = earlier.insert(at, span);
        let places = Seq::new(
            count,
            |i: int|
                if i == count - 1 {
                    at
                } else if before[i] >= at {
                    before[i] + 1
                } else {
                    before[i]
                },
        );
        assert forall|i: int| 0 <= i < count implies 0 <= #[trigger] places[i] < longer.len()
            && longer[places[i]] == spans[i] by {
            if i < count - 1 {
                assert(0 <= before[i] < earlier.len() && earlier[before[i]] == spans[i]);
            }
        }
        assert forall|i: int, j: int| 0 <= i < j < count implies #[trigger] places[i]
            != #[trigger] places[j] by {
            assert(0 <= before[i] < earlier.len());
            if j < count - 1 {
                assert(before[i] != before[j]);
            }
        }
        places
    }
}

/// Where the first `pairs` neighbouring pairs have no findings, none of
/// them overlaps.
proof fn lemma_no_neighbour_runs(sorted: Seq<FixedSpan>, pairs: nat, k: int)
    requires
        neighbour_errors(sorted, pairs).len() == 0,
        0 <= k < pairs,
    ensures
        !runs_into(sorted[k], sorted[k + 1]),
    decreases pairs,
{
    if k < pairs - 1 {
        lemma_no_neighbour_runs(sorted, (pairs - 1) as nat, k);
    }
}

/// In a list in order of proper spans none of which overlaps its
/// successor, a span has ended before any later span of its scope starts.
proof fn lemma_ordered_spans_apart(list: Seq<FixedSpan>, p: int, q: int)
    requires
        in_order(list),
        proper(list),
        forall|k: int| 0 <= k < list.len() - 1 ==> !runs_into(#[trigger] list[k], list[k + 1]),
        0 <= p < q < list.len(),
        same_scope(list[p], list[q]),
    ensures
        list[p].end <= list[q].start,
    decreases q - p,
{
    if q > p + 1 {
        assert(stands_before(list[p], list[p + 1]));
        assert(stands_before(list[p + 1], list[q]));
        lemma_scope_between(list[p], list[p + 1], list[q]);
        lemma_ordered_spans_apart(list, p + 1, q);
        assert(list[p + 1].start < list[p + 1].end);
    }
    assert(!runs_into(list[p], list[p + 1]));
}

/// Where the validation finds no overlap among proper spans, every two
/// spans of one scope are apart: one has ended before the other starts.
pub proof fn lemma_no_overlap_means_apart(spans: Seq<FixedSpan>, first: int, second: int)
    requires
        overlap_errors(spans).len() == 0,
        proper(spans),
        0 <= first < spans.len(),
        0 <= second < spans.len(),
        first != second,
        same_scope(spans[first], spans[second]),
    ensures
        spans[first].end <= spans[second].start || spans[second].end <= spans[first].start,
{
    let sorted = sorted_spans(spans, spans.len());
    lemma_sorted_in_order(spans, spans.len());
    let places = lemma_places(spans, spans.len());
    assert forall|k: int| 0 <= k < sorted.len() - 1 implies !runs_into(
        #[trigger] sorted[k],
        sorted[k + 1],
    ) by {
        lemma_no_neighbour_runs(sorted, (sorted.len() - 1) as nat, k);
    }
    let p = places[first];
    let q = places[second];
    assert(sorted[p] == spans[first] && sorted[q] == spans[second]);
    if first < second {
        assert(places[first] != places[second]);
    } else {
        assert(places[second] != places[first]);
    }
    if p < q {
        lemma_ordered_spans_apart(sorted, p, q);
    } else {
        lemma_ordered_spans_apart(sorted, q, p);
    }
}

} // verus!
