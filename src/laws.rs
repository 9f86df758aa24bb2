use crate::config::ClientsView;
use crate::index::{
    attached, attached_authzs, conflict_config, insert_pos, lemma_insert_pos_range, lemma_sel_last,
    name_lt, sel_count, sel_last, srvs_of, Authz, Index, ServerResource, Srv,
};
use crate::table::{table_of, Entity, Key, Table};
use crate::wire::ProxyConfigView;
use vstd::prelude::*;

verus! {

/// One change to a table of objects: an object applied, or a key deleted.
pub ghost enum Change<T> {
    Applied(T),
    Deleted(Key),
}

/// The key a change concerns.
pub open spec fn change_key<T: Entity>(c: Change<T>) -> Key {
    match c {
        Change::Applied(t) => t.key(),
        Change::Deleted(k) => k,
    }
}

/// The table after the changes, in order: an applied object replaces the one
/// with its key, a deletion removes the key. The index's handlers change their
/// tables in just this way.
pub open spec fn replay<T: Entity>(m: Map<Key, T>, changes: Seq<Change<T>>) -> Map<Key, T>
    decreases changes.len(),
{
    if changes.len() == 0 {
        m
    } else {
        let before = replay(m, changes.drop_last());
        match changes.last() {
            Change::Applied(t) => before.insert(t.key(), t),
            Change::Deleted(k) => before.remove(k),
        }
    }
}

/// The last of the changes that concerns key `k`.
pub open spec fn last_change<T: Entity>(changes: Seq<Change<T>>, k: Key) -> Option<Change<T>>
    decreases changes.len(),
{
    if changes.len() == 0 {
        None
    } else if change_key(changes.last()) == k {
        Some(changes.last())
    } else {
        last_change(changes.drop_last(), k)
    }
}

/// Whatever the order of the changes, each key ends as its last change left
/// it: present with the last object applied, or absent after a deletion; a
/// key that no change concerns keeps its first state.
pub proof fn lemma_last_change_wins<T: Entity>(m: Map<Key, T>, changes: Seq<Change<T>>, k: Key)
    ensures
        match last_change(changes, k) {
            None => replay(m, changes).contains_key(k) == m.contains_key(k) && (m.contains_key(k)
                ==> replay(m, changes)[k] == m[k]),
            Some(Change::Applied(t)) => replay(m, changes).contains_key(k) && replay(m, changes)[k]
                == t,
            Some(Change::Deleted(_)) => !replay(m, changes).contains_key(k),
        },
    decreases changes.len(),
{
    if changes.len() > 0 {
        lemma_last_change_wins(m, changes.drop_last(), k);
    }
}

/// Applying the same object twice leaves the table as applying it once.
pub proof fn lemma_reapply_idempotent<T: Entity>(m: Map<Key, T>, t: T)
    ensures
        replay(m, seq![Change::Applied(t), Change::Applied(t)]) == replay(
            m,
            seq![Change::Applied(t)],
        ),
{
    let two = seq![Change::Applied(t), Change::Applied(t)];
    let one = seq![Change::Applied(t)];
    assert(two.drop_last() =~= one);
    assert(one.drop_last() =~= Seq::<Change<T>>::empty());
    assert(m.insert(t.key(), t).insert(t.key(), t) =~= m.insert(t.key(), t));
}

/// A pod port that more than one server claims is published as a conflict.
pub proof fn lemma_claims_at_most_one_or_conflict(idx: Index, ci: int)
    requires
        idx.wf(),
        0 <= ci < idx.cells.len(),
    ensures
        ({
            let c = idx.cells@[ci];
            let p = idx.pods@[(c.ns@, c.pod@)];
            sel_count(idx.servers.index.items@, p, c.port) <= 1 || c.value@ == conflict_config()
        }),
{
    assert(idx.cell_current(idx.cells@[ci]));
}

/// Each entry of `attached_authzs(az, s)` comes from an authorization of `az`
/// that applies to `s`.
pub proof fn lemma_attached_from(az: Seq<Authz>, s: Srv, j: int)
    requires
        0 <= j < attached_authzs(az, s).len(),
    ensures
        exists|m: int|
            0 <= m < az.len() && attached(az[m], s) && #[trigger] az[m].name@ == attached_authzs(
                az,
                s,
            )[j].0,
    decreases az.len(),
{
    let rest = attached_authzs(az.drop_last(), s);
    let r = attached_authzs(az, s);
    let last = az.len() - 1;
    if attached(az[last], s) {
        let p = insert_pos(rest, az[last].name@);
        lemma_insert_pos_range(rest, az[last].name@);
        if j == p {
            assert(az[last].name@ == r[j].0);
        } else {
            let jj = if j < p {
                j
            } else {
                j - 1
            };
            assert(r[j] == rest[jj]);
            lemma_attached_from(az.drop_last(), s, jj);
            let m = choose|m: int|
                0 <= m < az.drop_last().len() && attached(az.drop_last()[m], s)
                    && #[trigger] az.drop_last()[m].name@ == rest[jj].0;
            assert(az[m] == az.drop_last()[m]);
        }
    } else {
        lemma_attached_from(az.drop_last(), s, j);
        let m = choose|m: int|
            0 <= m < az.drop_last().len() && attached(az.drop_last()[m], s)
                && #[trigger] az.drop_last()[m].name@ == rest[j].0;
        assert(az[m] == az.drop_last()[m]);
    }
}

/// An authorization of the table that applies to the server is one of its
/// entries.
pub proof fn lemma_attached_has(az: Seq<Authz>, s: Srv, i: int)
    requires
        0 <= i < az.len(),
        attached(az[i], s),
    ensures
        exists|j: int|
            0 <= j < attached_authzs(az, s).len() && #[trigger] attached_authzs(az, s)[j] == (
                az[i].name@,
                az[i].clients@,
            ),
    decreases az.len(),
{
    let rest = attached_authzs(az.drop_last(), s);
    let r = attached_authzs(az, s);
    let last = az.len() - 1;
    let p = insert_pos(rest, az[last].name@);
    lemma_insert_pos_range(rest, az[last].name@);
    if i < last {
        assert(az.drop_last()[i] == az[i]);
        lemma_attached_has(az.drop_last(), s, i);
        let j = choose|j: int| 0 <= j < rest.len() && #[trigger] rest[j] == (az[i].name@, az[i].clients@);
        if attached(az[last], s) {
            if j < p {
                assert(r[j] == rest[j]);
            } else {
                assert(r[j + 1] == rest[j]);
            }
        } else {
            assert(r[j] == rest[j]);
        }
    } else {
        assert(r[p] == (az[i].name@, az[i].clients@));
    }
}

/// An authorization of the index is among a server's authorizations iff it
/// targets the server by name or its selector matches the server's labels
/// (both in the server's namespace).
pub proof fn lemma_attached_iff(authzs: Table<Authz>, s: Srv, i: int)
    requires
        authzs.wf(),
        0 <= i < authzs.items.len(),
        authzs.items@[i].ns@ == s.ns@,
    ensures
        (exists|j: int|
            0 <= j < attached_authzs(authzs.items@, s).len() && #[trigger] attached_authzs(
                authzs.items@,
                s,
            )[j].0 == authzs.items@[i].name@) <==> attached(authzs.items@[i], s),
{
    let az = authzs.items@;
    if attached(az[i], s) {
        lemma_attached_has(az, s, i);
        let j = choose|j: int|
            0 <= j < attached_authzs(az, s).len() && #[trigger] attached_authzs(az, s)[j] == (
                az[i].name@,
                az[i].clients@,
            );
        assert(attached_authzs(az, s)[j].0 == az[i].name@);
    }
    if exists|j: int|
        0 <= j < attached_authzs(az, s).len() && #[trigger] attached_authzs(az, s)[j].0
            == az[i].name@ {
        let j = choose|j: int|
            0 <= j < attached_authzs(az, s).len() && #[trigger] attached_authzs(az, s)[j].0
                == az[i].name@;
        lemma_attached_from(az, s, j);
        let m = choose|m: int|
            0 <= m < az.len() && attached(az[m], s) && #[trigger] az[m].name@ == attached_authzs(
                az,
                s,
            )[j].0;
        assert(az[m].key() == az[i].key());
    }
}

/// After the servers were replaced by a full list, a port governed by a
/// server is governed by one of the list.
pub proof fn lemma_restart_keeps_only_listed_servers(
    idx: Index,
    srvs: Seq<ServerResource>,
    ci: int,
)
    requires
        idx.wf(),
        idx.servers.index@ == table_of(srvs_of(srvs)),
        0 <= ci < idx.cells.len(),
    ensures
        ({
            let c = idx.cells@[ci];
            let p = idx.pods@[(c.ns@, c.pod@)];
            let items = idx.servers.index.items@;
            sel_count(items, p, c.port) == 1 ==> table_of(srvs_of(srvs)).contains_key(
                items[sel_last(items, p, c.port)].key(),
            ) && c.value@ == crate::index::server_config(
                idx.authzs.items@,
                table_of(srvs_of(srvs))[items[sel_last(items, p, c.port)].key()],
            )
        }),
{
    let c = idx.cells@[ci];
    let p = idx.pods@[(c.ns@, c.pod@)];
    let items = idx.servers.index.items@;
    assert(idx.cell_current(c));
    lemma_sel_last(items, p, c.port);
    if sel_count(items, p, c.port) == 1 {
        idx.servers.index.lemma_view_at(sel_last(items, p, c.port));
    }
}

/// After the authorizations were replaced by a full list, each authorization
/// of a server's config is one of the list.
pub proof fn lemma_restart_keeps_only_listed_authzs(
    idx: Index,
    authzs: Seq<Authz>,
    s: Srv,
    j: int,
)
    requires
        idx.wf(),
        idx.authzs@ == table_of(authzs),
        0 <= j < attached_authzs(idx.authzs.items@, s).len(),
    ensures
        table_of(authzs).contains_key((s.ns@, attached_authzs(idx.authzs.items@, s)[j].0)),
{
    lemma_attached_from(idx.authzs.items@, s, j);
    let az = idx.authzs.items@;
    let m = choose|m: int|
        0 <= m < az.len() && attached(az[m], s) && #[trigger] az[m].name@ == attached_authzs(az, s)[j].0;
    idx.authzs.lemma_view_at(m);
}

/// What a subscriber sends, having sent `last`, as the port's config takes the
/// values `obs` in turn: each value that differs from the one sent before it.
/// `Subscriber::observe` takes one step of this.
pub open spec fn deliver(last: ProxyConfigView, obs: Seq<ProxyConfigView>) -> Seq<ProxyConfigView>
    decreases obs.len(),
{
    if obs.len() == 0 {
        Seq::empty()
    } else if obs[0] == last {
        deliver(last, obs.skip(1))
    } else {
        seq![obs[0]] + deliver(obs[0], obs.skip(1))
    }
}

/// What is delivered first differs from what was sent last.
proof fn lemma_deliver_starts_anew(last: ProxyConfigView, obs: Seq<ProxyConfigView>)
    ensures
        deliver(last, obs).len() > 0 ==> deliver(last, obs)[0] != last,
    decreases obs.len(),
{
    if obs.len() > 0 && obs[0] == last {
        lemma_deliver_starts_anew(last, obs.skip(1));
    }
}

/// A subscriber never receives the same config twice in a row: not the first
/// config again, and no value equal to the one sent just before it.
pub proof fn lemma_no_adjacent_repeats(first: ProxyConfigView, obs: Seq<ProxyConfigView>)
    ensures
        forall|i: int|
            0 <= i < deliver(first, obs).len() ==> #[trigger] (seq![first] + deliver(first, obs))[i]
                != (seq![first] + deliver(first, obs))[i + 1],
    decreases obs.len(),
{
    let d = deliver(first, obs);
    let s = seq![first] + d;
    lemma_deliver_starts_anew(first, obs);
    if obs.len() > 0 {
        if obs[0] == first {
            lemma_no_adjacent_repeats(first, obs.skip(1));
        } else {
            lemma_no_adjacent_repeats(obs[0], obs.skip(1));
            let t = seq![obs[0]] + deliver(obs[0], obs.skip(1));
            assert(d =~= t);
            assert forall|i: int| 0 <= i < d.len() implies #[trigger] s[i] != s[i + 1] by {
                if i > 0 {
                    assert(s[i] == t[i - 1]);
                    assert(s[i + 1] == t[i]);
                }
            }
        }
    }
}

/// The entries are in ascending order of name.
pub open spec fn sorted_by_name(r: Seq<(Seq<char>, ClientsView)>) -> bool {
    forall|i: int, j: int| 0 <= i < j < r.len() ==> !name_lt(#[trigger] r[j].0, #[trigger] r[i].0)
}

/// No name sorts before itself.
pub proof fn lemma_name_lt_irreflexive(a: Seq<char>)
    ensures
        !name_lt(a, a),
    decreases a.len(),
{
    if a.len() > 0 {
        lemma_name_lt_irreflexive(a.skip(1));
    }
}

/// The order of names is transitive.
pub proof fn lemma_name_lt_transitive(a: Seq<char>, b: Seq<char>, c: Seq<char>)
    requires
        name_lt(a, b),
        name_lt(b, c),
    ensures
        name_lt(a, c),
    decreases a.len(),
{
    if a.len() > 0 && a[0] == b[0] && b[0] == c[0] {
        lemma_name_lt_transitive(a.skip(1), b.skip(1), c.skip(1));
    }
}

/// Of two different names, one sorts before the other.
pub proof fn lemma_name_lt_total(a: Seq<char>, b: Seq<char>)
    ensures
        name_lt(a, b) || name_lt(b, a) || a == b,
    decreases a.len(),
{
    if a.len() > 0 && b.len() > 0 && a[0] == b[0] {
        lemma_name_lt_total(a.skip(1), b.skip(1));
        if a.skip(1) == b.skip(1) {
            assert(a =~= seq![a[0]] + a.skip(1));
            assert(b =~= seq![b[0]] + b.skip(1));
        }
    } else if a.len() == 0 && b.len() == 0 {
        assert(a =~= b);
    } else if a.len() > 0 && b.len() > 0 {
        assert((a[0] as int) != (b[0] as int));
    }
}

/// An entry goes before every entry that sorts after it, and after the one
/// before its position.
proof fn lemma_insert_pos_bounds(r: Seq<(Seq<char>, ClientsView)>, n: Seq<char>)
    ensures
        forall|k: int| insert_pos(r, n) <= k < r.len() ==> name_lt(n, #[trigger] r[k].0),
        insert_pos(r, n) > 0 ==> !name_lt(n, r[insert_pos(r, n) - 1].0),
    decreases r.len(),
{
    lemma_insert_pos_range(r, n);
    if r.len() > 0 && name_lt(n, r.last().0) {
        lemma_insert_pos_bounds(r.drop_last(), n);
        lemma_insert_pos_range(r.drop_last(), n);
        assert forall|k: int| insert_pos(r, n) <= k < r.len() implies name_lt(n, #[trigger] r[k].0) by {
            if k < r.len() - 1 {
                assert(r[k] == r.drop_last()[k]);
            }
        }
        if insert_pos(r, n) > 0 {
            assert(r[insert_pos(r, n) - 1] == r.drop_last()[insert_pos(r, n) - 1]);
        }
    }
}

/// A server's authorizations are in ascending order of name.
pub proof fn lemma_attached_sorted(az: Seq<Authz>, s: Srv)
    ensures
        sorted_by_name(attached_authzs(az, s)),
    decreases az.len(),
{
    if az.len() > 0 {
        lemma_attached_sorted(az.drop_last(), s);
        let rest = attached_authzs(az.drop_last(), s);
        let last = az.len() - 1;
        if attached(az[last], s) {
            let n = az[last].name@;
            let p = insert_pos(rest, n);
            let r = attached_authzs(az, s);
            lemma_insert_pos_range(rest, n);
            lemma_insert_pos_bounds(rest, n);
            assert forall|i: int, j: int| 0 <= i < j < r.len() implies !name_lt(
                #[trigger] r[j].0,
                #[trigger] r[i].0,
            ) by {
                if j < p {
                    assert(r[i] == rest[i] && r[j] == rest[j]);
                } else if i > p {
                    assert(r[i] == rest[i - 1] && r[j] == rest[j - 1]);
                } else if i < p && j > p {
                    assert(r[i] == rest[i] && r[j] == rest[j - 1]);
                } else if j == p {
                    assert(r[j].0 == n && r[i] == rest[i]);
                    if i < p - 1 && name_lt(n, rest[i].0) {
                        lemma_name_lt_total(n, rest[p - 1].0);
                        if rest[p - 1].0 != n {
                            lemma_name_lt_transitive(rest[p - 1].0, n, rest[i].0);
                        }
                    }
                } else {
                    assert(r[i].0 == n && r[j] == rest[j - 1]);
                    if name_lt(rest[j - 1].0, n) {
                        lemma_name_lt_transitive(n, rest[j - 1].0, n);
                        lemma_name_lt_irreflexive(n);
                    }
                }
            }
        }
    }
}

} // verus!
