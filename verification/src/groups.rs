//! Samples grouped by implementation, message and role.

use crate::checkpoint::role_of;
use crate::durations::{measurement_views, MeasurementRecord, MeasurementView, RUSTLS, S2N_TLS};
use crate::text::{
    lemma_bytes_before_irreflexive, lemma_bytes_before_transitive, place_of, same_text,
    text_before, Place,
};
use vstd::prelude::*;
use vstd::utf8::encode_utf8;

verus! {

/// The name of the group to which the samples of one implementation, message and
/// role belong.
pub open spec fn group_key(
    implementation: Seq<char>,
    message_name: Seq<char>,
    role: Seq<char>,
) -> Seq<char> {
    implementation + "|"@ + message_name + "_"@ + role
}

/// The name of the group to which a measurement belongs.
pub open spec fn key_of(m: MeasurementView) -> Seq<char> {
    group_key(m.implementation, m.message_name, m.role)
}

/// Names the group of one implementation, message and role.
pub fn sample_key(implementation: &str, message_name: &str, role: &str) -> (r: String)
    ensures
        r@ == group_key(implementation@, message_name@, role@),
        r@ == implementation@ + "|"@ + message_name@ + "_"@ + role@,
{
    let mut key: String = implementation.to_owned();
    key.append("|");
    key.append(message_name);
    key.append("_");
    key.append(role);
    key
}

/// The durations of the measurements that belong to the group `key`, in order.
pub open spec fn samples_of(ms: Seq<MeasurementView>, key: Seq<char>) -> Seq<u64>
    decreases ms.len(),
{
    if ms.len() == 0 {
        Seq::empty()
    } else {
        let rest = samples_of(ms.drop_last(), key);
        if key_of(ms.last()) == key {
            rest.push(ms.last().duration_ns)
        } else {
            rest
        }
    }
}

/// One group: its name and its samples in nanoseconds.
#[derive(Debug)]
pub struct SampleGroup {
    pub key: String,
    pub samples: Vec<u64>,
}

/// What a group says.
#[verifier::ext_equal]
pub struct GroupView {
    pub key: Seq<char>,
    pub samples: Seq<u64>,
}

impl View for SampleGroup {
    type V = GroupView;

    open spec fn view(&self) -> GroupView {
        GroupView { key: self.key@, samples: self.samples@ }
    }
}

/// What a list of groups says.
pub open spec fn group_views(s: Seq<SampleGroup>) -> Seq<GroupView> {
    Seq::new(s.len(), |i: int| s[i]@)
}

/// The groups stand in the order of their names, and no name occurs twice.
pub open spec fn keys_ascend(g: Seq<GroupView>) -> bool {
    forall|i: int, j: int|
        0 <= i < j < g.len() ==> text_before((#[trigger] g[i]).key, (#[trigger] g[j]).key)
}

/// Some group has the name `key`.
pub open spec fn has_key(g: Seq<GroupView>, key: Seq<char>) -> bool {
    exists|i: int| 0 <= i < g.len() && (#[trigger] g[i]).key == key
}

/// `g` groups the measurements `ms`: each measurement has its group, each group
/// holds the durations of all its measurements in order and at least one, and
/// the groups stand in the order of their names.
pub open spec fn is_grouping(ms: Seq<MeasurementView>, g: Seq<GroupView>) -> bool {
    &&& keys_ascend(g)
    &&& forall|i: int|
        0 <= i < ms.len() ==> has_key(g, key_of(#[trigger] ms[i]))
    &&& forall|i: int|
        0 <= i < g.len() ==> (#[trigger] g[i]).samples == samples_of(ms, g[i].key)
            && g[i].samples.len() > 0
}

/// Samples grouped by name, in the order of the names.
#[derive(Debug)]
pub struct SampleGroups {
    entries: Vec<SampleGroup>,
}

impl View for SampleGroups {
    type V = Seq<GroupView>;

    closed spec fn view(&self) -> Seq<GroupView> {
        group_views(self.entries@)
    }
}

impl SampleGroups {
    /// The groups stand in the order of their names, no name occurs twice, and no
    /// group is empty.
    pub open spec fn well_formed(&self) -> bool {
        &&& keys_ascend(self@)
        &&& forall|i: int| 0 <= i < self@.len() ==> (#[trigger] self@[i]).samples.len() > 0
    }
}

proof fn lemma_no_samples(ms: Seq<MeasurementView>, key: Seq<char>)
    requires
        forall|i: int| 0 <= i < ms.len() ==> key_of(#[trigger] ms[i]) != key,
    ensures
        samples_of(ms, key) == Seq::<u64>::empty(),
    decreases ms.len(),
{
    if ms.len() > 0 {
        lemma_no_samples(ms.drop_last(), key);
        assert(key_of(ms[ms.len() - 1]) != key);
    }
}

/// A sample that joins its group keeps the grouping.
proof fn lemma_sample_joins(
    ms: Seq<MeasurementView>,
    m: MeasurementView,
    before: Seq<GroupView>,
    at: int,
    after: Seq<GroupView>,
)
    requires
        is_grouping(ms, before),
        0 <= at < before.len(),
        before[at].key == key_of(m),
        after == before.update(
            at,
            (GroupView { key: key_of(m), samples: before[at].samples.push(m.duration_ns) }),
        ),
    ensures
        is_grouping(ms.push(m), after),
{
    let next = ms.push(m);
    assert(next.drop_last() =~= ms);
    assert forall|i: int, j: int| 0 <= i < j < after.len() implies text_before(
        (#[trigger] after[i]).key,
        (#[trigger] after[j]).key,
    ) by {
        assert(after[i].key == before[i].key && after[j].key == before[j].key);
    }
    assert forall|i: int| 0 <= i < next.len() implies has_key(
        after,
        key_of(#[trigger] next[i]),
    ) by {
        if i < ms.len() {
            assert(has_key(before, key_of(ms[i])));
            let g = choose|g: int|
                0 <= g < before.len() && (#[trigger] before[g]).key == key_of(ms[i]);
            assert(after[g].key == key_of(ms[i]));
        } else {
            assert(after[at].key == key_of(m));
        }
    }
    assert forall|i: int| 0 <= i < after.len() implies (#[trigger] after[i]).samples == samples_of(
        next,
        after[i].key,
    ) && after[i].samples.len() > 0 by {
        if i != at {
            assert(after[i] == before[i]);
            lemma_bytes_before_irreflexive(encode_utf8(key_of(m)));
            if i < at {
                assert(text_before(before[i].key, before[at].key));
            } else {
                assert(text_before(before[at].key, before[i].key));
            }
        }
    }
}

/// A sample that opens a group in its place keeps the grouping.
proof fn lemma_sample_opens(
    ms: Seq<MeasurementView>,
    m: MeasurementView,
    before: Seq<GroupView>,
    at: int,
    after: Seq<GroupView>,
)
    requires
        is_grouping(ms, before),
        0 <= at <= before.len(),
        forall|a: int| 0 <= a < at ==> text_before((#[trigger] before[a]).key, key_of(m)),
        at < before.len() ==> text_before(key_of(m), before[at].key),
        after == before.insert(at, (GroupView { key: key_of(m), samples: seq![m.duration_ns] })),
    ensures
        is_grouping(ms.push(m), after),
{
    let next = ms.push(m);
    assert(next.drop_last() =~= ms);
    assert forall|b: int| at <= b < before.len() implies text_before(
        key_of(m),
        (#[trigger] before[b]).key,
    ) by {
        if b > at {
            assert(text_before(before[at].key, before[b].key));
            lemma_bytes_before_transitive(
                encode_utf8(key_of(m)),
                encode_utf8(before[at].key),
                encode_utf8(before[b].key),
            );
        }
    }
    lemma_bytes_before_irreflexive(encode_utf8(key_of(m)));
    assert forall|i: int| 0 <= i < ms.len() implies key_of(#[trigger] ms[i]) != key_of(m) by {
        assert(has_key(before, key_of(ms[i])));
        let g = choose|g: int| 0 <= g < before.len() && (#[trigger] before[g]).key == key_of(ms[i]);
        assert(before[g].key == key_of(ms[i]));
    }
    lemma_no_samples(ms, key_of(m));
    assert forall|i: int, j: int| 0 <= i < j < after.len() implies text_before(
        (#[trigger] after[i]).key,
        (#[trigger] after[j]).key,
    ) by {
        if i != at {
            assert(after[i] == before[if i < at { i } else { i - 1 }]);
        }
        if j != at {
            assert(after[j] == before[if j < at { j } else { j - 1 }]);
        }
    }
    assert forall|i: int| 0 <= i < next.len() implies has_key(
        after,
        key_of(#[trigger] next[i]),
    ) by {
        if i < ms.len() {
            assert(has_key(before, key_of(ms[i])));
            let g = choose|g: int|
                0 <= g < before.len() && (#[trigger] before[g]).key == key_of(ms[i]);
            let h = if g < at { g } else { g + 1 };
            assert(after[h].key == key_of(ms[i]));
        } else {
            assert(after[at].key == key_of(m));
        }
    }
    assert forall|i: int| 0 <= i < after.len() implies (#[trigger] after[i]).samples == samples_of(
        next,
        after[i].key,
    ) && after[i].samples.len() > 0 by {
        if i != at {
            let g = if i < at { i } else { i - 1 };
            assert(after[i] == before[g]);
            assert(before[g].key != key_of(m));
        } else {
            assert(samples_of(next, key_of(m)) =~= seq![m.duration_ns]);
        }
    }
}

impl SampleGroups {
    /// Adds the duration of the measurement `m`, which belongs to the group `key`,
    /// to the grouping of the measurements `ms`.
    fn record(
        &mut self,
        key: String,
        sample: u64,
        Ghost(ms): Ghost<Seq<MeasurementView>>,
        Ghost(m): Ghost<MeasurementView>,
    )
        requires
            is_grouping(ms, old(self)@),
            key@ == key_of(m),
            sample == m.duration_ns,
        ensures
            is_grouping(ms.push(m), final(self)@),
    {
        let ghost before = self@;
        let mut at: usize = 0;
        while at < self.entries.len() && place_of(self.entries[at].key.as_str(), key.as_str())
            == Place::Before
            invariant
                at <= self.entries@.len(),
                before == self@,
                forall|a: int| 0 <= a < at ==> text_before((#[trigger] before[a]).key, key@),
            decreases self.entries@.len() - at,
        {
            assert(before[at as int].key == self.entries@[at as int].key@);
            at = at + 1;
        }
        if at < self.entries.len() && same_text(self.entries[at].key.as_str(), key.as_str()) {
            let ghost entry = self.entries@[at as int];
            self.entries[at].samples.push(sample);
            proof {
                assert(before[at as int] == entry@);
                assert(self@ =~= before.update(
                    at as int,
                    GroupView { key: key@, samples: before[at as int].samples.push(m.duration_ns) },
                ));
                lemma_sample_joins(ms, m, before, at as int, self@);
            }
        } else {
            let mut samples: Vec<u64> = Vec::new();
            samples.push(sample);
            self.entries.insert(at, SampleGroup { key, samples });
            proof {
                assert(samples@ =~= seq![m.duration_ns]);
                assert(self@ =~= before.insert(
                    at as int,
                    GroupView { key: key_of(m), samples: seq![m.duration_ns] },
                ));
                lemma_sample_opens(ms, m, before, at as int, self@);
            }
        }
    }

    /// How many groups there are.
    pub fn len(&self) -> (r: usize)
        ensures
            r == self@.len(),
    {
        self.entries.len()
    }

    /// The group at position `i`.
    pub fn group(&self, i: usize) -> (r: &SampleGroup)
        requires
            i < self@.len(),
        ensures
            r@ == self@[i as int],
    {
        &self.entries[i]
    }

    /// The group named `key`, if there is one.
    pub fn get(&self, key: &str) -> (r: Option<&SampleGroup>)
        ensures
            r is Some <==> has_key(self@, key@),
            r is None ==> forall|i: int| 0 <= i < self@.len() ==> (#[trigger] self@[i]).key != key@,
            r matches Some(g) ==> g@.key == key@ && exists|i: int|
                0 <= i < self@.len() && #[trigger] self@[i] == g@,
    {
        let mut i: usize = 0;
        while i < self.entries.len()
            invariant
                i <= self.entries@.len(),
                forall|a: int| 0 <= a < i ==> (#[trigger] self@[a]).key != key@,
            decreases self.entries@.len() - i,
        {
            if same_text(self.entries[i].key.as_str(), key) {
                assert(self@[i as int] == self.entries@[i as int]@);
                return Some(&self.entries[i]);
            }
            assert(self@[i as int] == self.entries@[i as int]@);
            i = i + 1;
        }
        None
    }
}

/// Groups measurements by implementation, message and role, so that the two
/// implementations and the two roles stay separate.
pub fn group_durations(measurements: &Vec<MeasurementRecord>) -> (r: SampleGroups)
    ensures
        r.well_formed(),
        is_grouping(measurement_views(measurements@), r@),
{
    let mut groups = SampleGroups { entries: Vec::new() };
    let ghost views = measurement_views(measurements@);
    let mut i: usize = 0;
    assert(is_grouping(views.take(0), groups@));
    while i < measurements.len()
        invariant
            i <= measurements@.len(),
            views == measurement_views(measurements@),
            is_grouping(views.take(i as int), groups@),
        decreases measurements@.len() - i,
    {
        let m: &MeasurementRecord = &measurements[i];
        let key: String = sample_key(
            m.implementation.as_str(),
            m.message_name.as_str(),
            m.role.as_str(),
        );
        assert(views.take(i + 1) =~= views.take(i as int).push(m@));
        groups.record(key, m.duration_ns, Ghost(views.take(i as int)), Ghost(m@));
        i = i + 1;
    }
    assert(views.take(i as int) =~= views);
    groups
}

/// How many of the measurements belong to one of the groups `keys`.
spec fn counted(ms: Seq<MeasurementView>, keys: Seq<Seq<char>>) -> nat
    decreases keys.len(),
{
    if keys.len() == 0 {
        0
    } else {
        counted(ms, keys.drop_last()) + samples_of(ms, keys.last()).len()
    }
}

proof fn lemma_counted_step(ms: Seq<MeasurementView>, keys: Seq<Seq<char>>)
    requires
        ms.len() > 0,
        keys.no_duplicates(),
    ensures
        counted(ms, keys) == counted(ms.drop_last(), keys) + (if keys.contains(key_of(ms.last())) {
            1int
        } else {
            0
        }),
    decreases keys.len(),
{
    let key = key_of(ms.last());
    if keys.len() > 0 {
        let rest = keys.drop_last();
        lemma_counted_step(ms, rest);
        if keys.last() == key {
            assert(!rest.contains(key)) by {
                if rest.contains(key) {
                    let i = rest.index_of(key);
                    assert(keys[i] == keys[keys.len() - 1]);
                }
            }
            assert(keys[keys.len() - 1] == key);
        } else {
            if keys.contains(key) {
                let i = keys.index_of(key);
                assert(rest[i] == key);
            }
            if rest.contains(key) {
                let i = rest.index_of(key);
                assert(keys[i] == key);
            }
        }
    }
}

proof fn lemma_counted_all(ms: Seq<MeasurementView>, keys: Seq<Seq<char>>)
    requires
        keys.no_duplicates(),
        forall|i: int| 0 <= i < ms.len() ==> keys.contains(key_of(#[trigger] ms[i])),
    ensures
        counted(ms, keys) == ms.len(),
    decreases ms.len(), keys.len(),
{
    if ms.len() > 0 {
        lemma_counted_step(ms, keys);
        assert(keys.contains(key_of(ms[ms.len() - 1])));
        lemma_counted_all(ms.drop_last(), keys);
    } else if keys.len() > 0 {
        lemma_counted_all(ms, keys.drop_last());
    }
}

/// How many samples the groups hold in all.
pub open spec fn sample_count(g: Seq<GroupView>) -> nat
    decreases g.len(),
{
    if g.len() == 0 {
        0
    } else {
        sample_count(g.drop_last()) + g.last().samples.len()
    }
}

proof fn lemma_sample_count(ms: Seq<MeasurementView>, g: Seq<GroupView>, keys: Seq<Seq<char>>)
    requires
        keys.len() == g.len(),
        forall|i: int|
            0 <= i < g.len() ==> (#[trigger] g[i]).samples == samples_of(ms, g[i].key) && keys[i]
                == g[i].key,
    ensures
        sample_count(g) == counted(ms, keys),
    decreases g.len(),
{
    if g.len() > 0 {
        assert(g[g.len() - 1].samples == samples_of(ms, g.last().key));
        lemma_sample_count(ms, g.drop_last(), keys.drop_last());
    }
}

/// A grouping holds each measurement once: none is lost and none is counted twice.
pub proof fn lemma_grouping_is_a_partition(ms: Seq<MeasurementView>, g: Seq<GroupView>)
    requires
        is_grouping(ms, g),
    ensures
        sample_count(g) == ms.len(),
{
    let keys = Seq::new(g.len(), |i: int| g[i].key);
    assert forall|i: int, j: int|
        0 <= i < keys.len() && 0 <= j < keys.len() && i != j implies keys[i] != keys[j] by {
        lemma_bytes_before_irreflexive(encode_utf8(g[i].key));
        if i < j {
            assert(text_before(g[i].key, g[j].key));
        } else {
            assert(text_before(g[j].key, g[i].key));
        }
    }
    assert forall|i: int| 0 <= i < ms.len() implies keys.contains(key_of(#[trigger] ms[i])) by {
        assert(has_key(g, key_of(ms[i])));
        let k = choose|k: int| 0 <= k < g.len() && (#[trigger] g[k]).key == key_of(ms[i]);
        assert(keys[k] == key_of(ms[i]));
    }
    lemma_sample_count(ms, g, keys);
    lemma_counted_all(ms, keys);
}

/// Samples of s2n-tls and of rustls never fall into one group.
pub proof fn lemma_implementations_stay_separate(
    s2n_message: Seq<char>,
    s2n_role: Seq<char>,
    rustls_message: Seq<char>,
    rustls_role: Seq<char>,
)
    ensures
        group_key(S2N_TLS@, s2n_message, s2n_role) != group_key(
            RUSTLS@,
            rustls_message,
            rustls_role,
        ),
{
    reveal_strlit("s2n-tls");
    reveal_strlit("rustls");
    assert(group_key(S2N_TLS@, s2n_message, s2n_role)[0] == 's');
    assert(group_key(RUSTLS@, rustls_message, rustls_role)[0] == 'r');
}

/// The name of a group tells which implementation, message and role its samples
/// belong to: with one of the two roles, and an implementation whose name has no
/// `|`, no two of them share a group.
pub proof fn lemma_group_key_is_unambiguous(a: MeasurementView, b: MeasurementView)
    requires
        key_of(a) == key_of(b),
        a.role == role_of(true) || a.role == role_of(false),
        b.role == role_of(true) || b.role == role_of(false),
        !a.implementation.contains('|'),
        !b.implementation.contains('|'),
    ensures
        a.implementation == b.implementation,
        a.message_name == b.message_name,
        a.role == b.role,
{
    reveal_strlit("server");
    reveal_strlit("client");
    reveal_strlit("|");
    reveal_strlit("_");
    let ka = key_of(a);
    let kb = key_of(b);
    let n = ka.len() as int;
    assert(ka.skip(n - 6) =~= a.role);
    assert(kb.skip(n - 6) =~= b.role);
    let i = a.implementation.len() as int;
    let j = b.implementation.len() as int;
    assert(ka[i] == '|');
    assert(kb[j] == '|');
    if i < j {
        assert(kb[i] == b.implementation[i]);
        assert(b.implementation.contains('|'));
    } else if j < i {
        assert(ka[j] == a.implementation[j]);
        assert(a.implementation.contains('|'));
    }
    assert(ka.take(i) =~= a.implementation);
    assert(kb.take(i) =~= b.implementation);
    assert(ka.subrange(i + 1, n - 7) =~= a.message_name);
    assert(kb.subrange(i + 1, n - 7) =~= b.message_name);
}

/// A group is seen as it is.
pub proof fn lemma_groups_are_seen_as_they_are(group: SampleGroup)
    ensures
        group@.key == group.key@,
        group@.samples == group.samples@,
{
}

/// The samples of a group are the durations of all measurements whose implementation,
/// message and role make up the name of the group, in the order of the measurements.
pub proof fn lemma_samples_are_picked_by_name(ms: Seq<MeasurementView>, key: Seq<char>)
    ensures
        samples_of(ms, key) == ms.filter(
            |m: MeasurementView|
                m.implementation + "|"@ + m.message_name + "_"@ + m.role == key,
        ).map_values(|m: MeasurementView| m.duration_ns),
    decreases ms.len(),
{
    reveal(Seq::filter);
    let pick = |m: MeasurementView|
        m.implementation + "|"@ + m.message_name + "_"@ + m.role == key;
    let time = |m: MeasurementView| m.duration_ns;
    if ms.len() > 0 {
        lemma_samples_are_picked_by_name(ms.drop_last(), key);
        let rest = ms.drop_last().filter(pick);
        assert(pick(ms.last()) == (key_of(ms.last()) == key));
        if pick(ms.last()) {
            assert(rest.push(ms.last()).map_values(time) =~= rest.map_values(time).push(
                ms.last().duration_ns,
            ));
        }
    }
    assert(samples_of(ms, key) =~= ms.filter(pick).map_values(time));
}

/// A group holds the durations of the measurements that its name is made of, all of them
/// and in their order, and at least one. The groups stand in the byte order of their
/// names.
pub proof fn lemma_grouping_is_exact(ms: Seq<MeasurementView>, g: Seq<GroupView>)
    requires
        is_grouping(ms, g),
    ensures
        forall|i: int, j: int|
            0 <= i < j < g.len() ==> text_before((#[trigger] g[i]).key, (#[trigger] g[j]).key),
        forall|i: int|
            0 <= i < g.len() ==> (#[trigger] g[i]).samples == ms.filter(
                |m: MeasurementView|
                    m.implementation + "|"@ + m.message_name + "_"@ + m.role == g[i].key,
            ).map_values(|m: MeasurementView| m.duration_ns),
        forall|i: int| 0 <= i < g.len() ==> (#[trigger] g[i]).samples.len() > 0,
{
    assert forall|i: int| 0 <= i < g.len() implies (#[trigger] g[i]).samples == ms.filter(
        |m: MeasurementView|
            m.implementation + "|"@ + m.message_name + "_"@ + m.role == g[i].key,
    ).map_values(|m: MeasurementView| m.duration_ns) by {
        lemma_samples_are_picked_by_name(ms, g[i].key);
    }
}

/// Each measurement has its group, named by its implementation, message and role.
pub proof fn lemma_each_measurement_has_its_group(
    ms: Seq<MeasurementView>,
    g: Seq<GroupView>,
    k: int,
) -> (i: int)
    requires
        is_grouping(ms, g),
        0 <= k < ms.len(),
    ensures
        0 <= i < g.len(),
        g[i].key == ms[k].implementation + "|"@ + ms[k].message_name + "_"@ + ms[k].role,
{
    assert(has_key(g, key_of(ms[k])));
    choose|i: int| 0 <= i < g.len() && (#[trigger] g[i]).key == key_of(ms[k])
}

} // verus!
