//! What the summary tables show: which rows there are, in which order, and the
//! median of each.

use crate::checkpoint::{role_name, role_of};
use crate::durations::{RUSTLS, S2N_TLS};
use crate::groups::{
    group_key, has_key, keys_ascend, lemma_implementations_stay_separate, sample_key, GroupView,
    SampleGroups,
};
use crate::order::{
    arranged, as_ints, lemma_arranged_keeps_items, lemma_stable_order_exists, sorts_before,
    stable_order, stable_order_of,
};
use crate::text::{lemma_bytes_before_irreflexive, text_before};
use vstd::prelude::*;
use vstd::utf8::encode_utf8;

verus! {

/// The messages of a handshake, in the order in which the tables list them.
pub const HANDSHAKE_ORDER: [&'static str; 15] = [
    "CLIENT_HELLO",
    "RECORD_READ",
    "RECORD_WRITE",
    "SERVER_HELLO",
    "SERVER_CHANGE_CIPHER_SPEC",
    "ENCRYPTED_EXTENSIONS",
    "SERVER_CERT_REQ",
    "SERVER_CERT",
    "SERVER_CERT_VERIFY",
    "SERVER_FINISHED",
    "CLIENT_CERT",
    "CLIENT_CERT_VERIFY",
    "CLIENT_CHANGE_CIPHER_SPEC",
    "CLIENT_FINISHED",
    "NEGOTIATE_END",
];

/// The middle sample in ascending order, the upper one of two.
pub open spec fn median_of(samples: Seq<u64>) -> u64
    recommends
        samples.len() > 0,
{
    arranged(samples, samples)[samples.len() as int / 2]
}

/// The median is the middle of the samples once they stand in ascending order.
pub proof fn lemma_median_is_the_middle(samples: Seq<u64>)
    requires
        samples.len() > 0,
    ensures
        exists|line: Seq<u64>|
            {
                &&& line.to_multiset() == samples.to_multiset()
                &&& line.len() == samples.len()
                &&& forall|a: int, b: int| 0 <= a <= b < line.len() ==> line[a] <= line[b]
                &&& #[trigger] line[samples.len() as int / 2] == median_of(samples)
            },
{
    let line = arranged(samples, samples);
    let order = stable_order_of(samples);
    lemma_stable_order_exists(samples);
    lemma_arranged_keeps_items(samples, samples);
    assert forall|a: int, b: int| 0 <= a <= b < line.len() implies line[a] <= line[b] by {
        if a < b {
            assert(sorts_before(samples, order[a], order[b]));
        }
    }
    assert(line[samples.len() as int / 2] == median_of(samples));
}

/// The median of a list of samples.
pub fn median(samples: &[u64]) -> (r: u64)
    requires
        samples@.len() > 0,
    ensures
        r == median_of(samples@),
{
    let order: Vec<usize> = stable_order(samples);
    let middle: usize = order.len() / 2;
    assert(as_ints(order@)[middle as int] == order@[middle as int]);
    samples[order[middle]]
}

/// One row of a table: a message, a role, and the median of the samples.
#[derive(Debug)]
pub struct SummaryRow {
    pub message: String,
    pub role: String,
    pub key: String,
    pub median_ns: u64,
}

/// What a row says.
#[verifier::ext_equal]
pub struct RowView {
    pub message: Seq<char>,
    pub role: Seq<char>,
    pub key: Seq<char>,
    pub median_ns: u64,
}

impl View for SummaryRow {
    type V = RowView;

    open spec fn view(&self) -> RowView {
        RowView {
            message: self.message@,
            role: self.role@,
            key: self.key@,
            median_ns: self.median_ns,
        }
    }
}

/// What a list of rows says.
pub open spec fn row_views(s: Seq<SummaryRow>) -> Seq<RowView> {
    Seq::new(s.len(), |i: int| s[i]@)
}

/// The samples of the group named `key`.
pub open spec fn samples_in(g: Seq<GroupView>, key: Seq<char>) -> Seq<u64>
    recommends
        has_key(g, key),
{
    let i = choose|i: int| 0 <= i < g.len() && (#[trigger] g[i]).key == key;
    g[i].samples
}

/// The message in place `n` of a table: each message stands twice, first for the
/// server, then for the client.
pub open spec fn place_message(n: int) -> Seq<char> {
    HANDSHAKE_ORDER@[n / 2]@
}

/// The role in place `n` of a table.
pub open spec fn place_role(n: int) -> Seq<char> {
    role_of(n % 2 == 0)
}

/// The rows of a table up to place `n`: one for each place whose group exists.
pub open spec fn rows_up_to(
    implementation: Seq<char>,
    g: Seq<GroupView>,
    n: nat,
) -> Seq<RowView>
    decreases n,
{
    if n == 0 {
        Seq::empty()
    } else {
        let rest = rows_up_to(implementation, g, (n - 1) as nat);
        let key = group_key(implementation, place_message(n - 1), place_role(n - 1));
        if has_key(g, key) {
            rest.push(
                RowView {
                    message: place_message(n - 1),
                    role: place_role(n - 1),
                    key,
                    median_ns: median_of(samples_in(g, key)),
                },
            )
        } else {
            rest
        }
    }
}

/// The rows of the table for one implementation.
pub open spec fn table(implementation: Seq<char>, g: Seq<GroupView>) -> Seq<RowView> {
    rows_up_to(implementation, g, 2 * HANDSHAKE_ORDER@.len())
}

/// Each row of a table stands for a group of the table's own implementation.
pub proof fn lemma_rows_are_groups(implementation: Seq<char>, g: Seq<GroupView>, n: nat, i: int)
    requires
        0 <= i < rows_up_to(implementation, g, n).len(),
    ensures
        ({
            let row = rows_up_to(implementation, g, n)[i];
            &&& row.key == group_key(implementation, row.message, row.role)
            &&& has_key(g, row.key)
            &&& row.median_ns == median_of(samples_in(g, row.key))
        }),
    decreases n,
{
    if i < rows_up_to(implementation, g, (n - 1) as nat).len() {
        lemma_rows_are_groups(implementation, g, (n - 1) as nat, i);
    }
}

/// No group is shown in the tables of both implementations.
pub proof fn lemma_tables_share_no_group(g: Seq<GroupView>, i: int, j: int)
    requires
        0 <= i < table(S2N_TLS@, g).len(),
        0 <= j < table(RUSTLS@, g).len(),
    ensures
        table(S2N_TLS@, g)[i].key != table(RUSTLS@, g)[j].key,
{
    lemma_rows_are_groups(S2N_TLS@, g, 2 * HANDSHAKE_ORDER@.len(), i);
    lemma_rows_are_groups(RUSTLS@, g, 2 * HANDSHAKE_ORDER@.len(), j);
    let a = table(S2N_TLS@, g)[i];
    let b = table(RUSTLS@, g)[j];
    lemma_implementations_stay_separate(a.message, a.role, b.message, b.role);
}

/// A group of the implementation, for a listed message and one of the two roles, has
/// a row in the table.
pub proof fn lemma_listed_groups_are_shown(
    implementation: Seq<char>,
    g: Seq<GroupView>,
    message: int,
    is_server: bool,
)
    requires
        0 <= message < HANDSHAKE_ORDER@.len(),
        has_key(g, group_key(implementation, HANDSHAKE_ORDER@[message]@, role_of(is_server))),
    ensures
        exists|i: int|
            0 <= i < table(implementation, g).len() && (#[trigger] table(implementation, g)[i]).key
                == group_key(implementation, HANDSHAKE_ORDER@[message]@, role_of(is_server)),
{
    let place = 2 * message + if is_server {
        0int
    } else {
        1
    };
    assert(place / 2 == message && (place % 2 == 0) == is_server);
    let at = rows_up_to(implementation, g, place as nat).len() as int;
    lemma_rows_stay(implementation, g, (place + 1) as nat, 2 * HANDSHAKE_ORDER@.len(), at);
    assert(table(implementation, g)[at].key == group_key(
        implementation,
        HANDSHAKE_ORDER@[message]@,
        role_of(is_server),
    ));
}

/// A row stays in its place when further places are looked at.
proof fn lemma_rows_stay(implementation: Seq<char>, g: Seq<GroupView>, m: nat, n: nat, i: int)
    requires
        m <= n,
        0 <= i < rows_up_to(implementation, g, m).len(),
    ensures
        i < rows_up_to(implementation, g, n).len(),
        rows_up_to(implementation, g, n)[i] == rows_up_to(implementation, g, m)[i],
    decreases n - m,
{
    if m < n {
        lemma_rows_stay(implementation, g, m, (n - 1) as nat, i);
    }
}

/// In a grouping each name leads to one group.
pub proof fn lemma_one_group_per_key(g: Seq<GroupView>, i: int)
    requires
        keys_ascend(g),
        0 <= i < g.len(),
    ensures
        samples_in(g, g[i].key) == g[i].samples,
{
    let key = g[i].key;
    let j = choose|j: int| 0 <= j < g.len() && (#[trigger] g[j]).key == key;
    assert(g[i].key == key);
    lemma_bytes_before_irreflexive(encode_utf8(key));
    if i < j {
        assert(text_before(g[i].key, g[j].key));
    } else if j < i {
        assert(text_before(g[j].key, g[i].key));
    }
}

/// The rows of the table for one implementation, in the order of the handshake.
pub fn summary_rows(implementation: &str, groups: &SampleGroups) -> (r: Vec<SummaryRow>)
    requires
        groups.well_formed(),
    ensures
        row_views(r@) == table(implementation@, groups@),
{
    let mut rows: Vec<SummaryRow> = Vec::new();
    let mut n: usize = 0;
    assert(row_views(rows@) =~= Seq::empty());
    let places: usize = 2 * HANDSHAKE_ORDER.len();
    while n < places
        invariant
            n <= places,
            places == 2 * HANDSHAKE_ORDER@.len(),
            groups.well_formed(),
            row_views(rows@) == rows_up_to(implementation@, groups@, n as nat),
        decreases places - n,
    {
        let message: &'static str = HANDSHAKE_ORDER[n / 2];
        let role: &'static str = role_name(n % 2 == 0);
        let key: String = sample_key(implementation, message, role);
        let ghost now = rows@;
        if let Some(group) = groups.get(key.as_str()) {
            proof {
                let i = choose|i: int| 0 <= i < groups@.len() && #[trigger] groups@[i] == group@;
                lemma_one_group_per_key(groups@, i);
            }
            let median_ns: u64 = median(group.samples.as_slice());
            rows.push(
                SummaryRow { message: message.to_owned(), role: role.to_owned(), key, median_ns },
            );
            assert(row_views(rows@) =~= row_views(now).push(rows@.last()@));
        }
        n = n + 1;
    }
    rows
}

/// The tables list the messages of a full TLS 1.3 handshake in the order in which they
/// are sent, with the records of the connection itself behind the first, and the end of
/// the negotiation last.
pub proof fn lemma_messages_are_listed_as_they_are_sent()
    ensures
        HANDSHAKE_ORDER@.len() == 15,
        HANDSHAKE_ORDER@[0]@ == "CLIENT_HELLO"@,
        HANDSHAKE_ORDER@[1]@ == "RECORD_READ"@,
        HANDSHAKE_ORDER@[2]@ == "RECORD_WRITE"@,
        HANDSHAKE_ORDER@[3]@ == "SERVER_HELLO"@,
        HANDSHAKE_ORDER@[4]@ == "SERVER_CHANGE_CIPHER_SPEC"@,
        HANDSHAKE_ORDER@[5]@ == "ENCRYPTED_EXTENSIONS"@,
        HANDSHAKE_ORDER@[6]@ == "SERVER_CERT_REQ"@,
        HANDSHAKE_ORDER@[7]@ == "SERVER_CERT"@,
        HANDSHAKE_ORDER@[8]@ == "SERVER_CERT_VERIFY"@,
        HANDSHAKE_ORDER@[9]@ == "SERVER_FINISHED"@,
        HANDSHAKE_ORDER@[10]@ == "CLIENT_CERT"@,
        HANDSHAKE_ORDER@[11]@ == "CLIENT_CERT_VERIFY"@,
        HANDSHAKE_ORDER@[12]@ == "CLIENT_CHANGE_CIPHER_SPEC"@,
        HANDSHAKE_ORDER@[13]@ == "CLIENT_FINISHED"@,
        HANDSHAKE_ORDER@[14]@ == "NEGOTIATE_END"@,
{
}

/// Rows are seen as they are.
pub proof fn lemma_rows_are_seen_as_they_are(s: Seq<SummaryRow>, i: int)
    requires
        0 <= i < s.len(),
    ensures
        row_views(s).len() == s.len(),
        row_views(s)[i].message == s[i].message@,
        row_views(s)[i].role == s[i].role@,
        row_views(s)[i].key == s[i].key@,
        row_views(s)[i].median_ns == s[i].median_ns,
{
}

/// The places of the rows of a table, up to place `n`.
proof fn lemma_places_of_rows(
    implementation: Seq<char>,
    g: Seq<GroupView>,
    n: nat,
) -> (places: Seq<int>)
    ensures
        places.len() == rows_up_to(implementation, g, n).len(),
        forall|i: int| 0 <= i < places.len() ==> 0 <= #[trigger] places[i] < n,
        forall|i: int, j: int|
            0 <= i < j < places.len() ==> #[trigger] places[i] < #[trigger] places[j],
        forall|i: int|
            0 <= i < places.len() ==> {
                let row = #[trigger] rows_up_to(implementation, g, n)[i];
                &&& row.message == place_message(places[i])
                &&& row.role == place_role(places[i])
            },
        forall|p: int|
            0 <= p < n && has_key(
                g,
                group_key(implementation, #[trigger] place_message(p), place_role(p)),
            ) ==> places.contains(p),
    decreases n,
{
    if n == 0 {
        Seq::empty()
    } else {
        let m = (n - 1) as nat;
        let before = lemma_places_of_rows(implementation, g, m);
        let key = group_key(implementation, place_message(n - 1), place_role(n - 1));
        let places = if has_key(g, key) {
            before.push(n - 1)
        } else {
            before
        };
        assert forall|i: int| 0 <= i < places.len() implies {
            let row = #[trigger] rows_up_to(implementation, g, n)[i];
            &&& row.message == place_message(places[i])
            &&& row.role == place_role(places[i])
        } by {
            if i < before.len() {
                assert(rows_up_to(implementation, g, n)[i] == rows_up_to(implementation, g, m)[i]);
            }
        }
        assert forall|p: int|
            0 <= p < n && has_key(
                g,
                group_key(implementation, #[trigger] place_message(p), place_role(p)),
            ) implies places.contains(p) by {
            if p < n - 1 {
                assert(before.contains(p));
                let i = before.index_of(p);
                assert(places[i] == p);
            } else {
                assert(places[places.len() - 1] == p);
            }
        }
        places
    }
}

/// A table walks through the listed messages in their order, and for each of them shows
/// the server's group and then the client's, if the implementation has such a group. It
/// shows no other rows. A row names its message, role and group, and gives the median of
/// the group's samples.
pub proof fn lemma_table_walks_through_the_handshake(
    implementation: Seq<char>,
    g: Seq<GroupView>,
) -> (places: Seq<int>)
    requires
        keys_ascend(g),
    ensures
        places.len() == table(implementation, g).len(),
        forall|i: int| 0 <= i < places.len() ==> 0 <= #[trigger] places[i] < 30,
        forall|i: int, j: int|
            0 <= i < j < places.len() ==> #[trigger] places[i] < #[trigger] places[j],
        forall|i: int|
            0 <= i < places.len() ==> {
                let row = #[trigger] table(implementation, g)[i];
                &&& row.message == HANDSHAKE_ORDER@[places[i] / 2]@
                &&& places[i] % 2 == 0 ==> row.role == "server"@
                &&& places[i] % 2 == 1 ==> row.role == "client"@
                &&& row.key == implementation + "|"@ + row.message + "_"@ + row.role
                &&& exists|k: int|
                    0 <= k < g.len() && (#[trigger] g[k]).key == row.key && row.median_ns
                        == median_of(g[k].samples)
            },
        forall|k: int, p: int|
            0 <= k < g.len() && 0 <= p < 30 && (#[trigger] g[k]).key == implementation + "|"@
                + (#[trigger] HANDSHAKE_ORDER@[p / 2])@ + "_"@ + (if p % 2 == 0 {
                "server"@
            } else {
                "client"@
            }) ==> places.contains(p),
{
    let n: nat = 2 * HANDSHAKE_ORDER@.len();
    let places = lemma_places_of_rows(implementation, g, n);
    assert forall|i: int| 0 <= i < places.len() implies {
        let row = #[trigger] table(implementation, g)[i];
        &&& row.message == HANDSHAKE_ORDER@[places[i] / 2]@
        &&& places[i] % 2 == 0 ==> row.role == "server"@
        &&& places[i] % 2 == 1 ==> row.role == "client"@
        &&& row.key == implementation + "|"@ + row.message + "_"@ + row.role
        &&& exists|k: int|
            0 <= k < g.len() && (#[trigger] g[k]).key == row.key && row.median_ns == median_of(
                g[k].samples,
            )
    } by {
        lemma_rows_are_groups(implementation, g, n, i);
        let row = table(implementation, g)[i];
        assert(row == rows_up_to(implementation, g, n)[i]);
        assert(has_key(g, row.key));
        let k = choose|k: int| 0 <= k < g.len() && (#[trigger] g[k]).key == row.key;
        assert(g[k].key == row.key);
        lemma_one_group_per_key(g, k);
    }
    assert forall|k: int, p: int|
        0 <= k < g.len() && 0 <= p < 30 && (#[trigger] g[k]).key == implementation + "|"@ + (
        #[trigger] HANDSHAKE_ORDER@[p / 2])@ + "_"@ + (if p % 2 == 0 {
            "server"@
        } else {
            "client"@
        }) implies places.contains(p) by {
        assert(g[k].key == group_key(implementation, place_message(p), place_role(p)));
        assert(has_key(g, group_key(implementation, place_message(p), place_role(p))));
    }
    places
}

} // verus!
