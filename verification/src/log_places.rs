//! Where the log is looked for in all the Wine prefixes of a process.

use vstd::prelude::*;
#[allow(unused_imports)]
use vstd::utf8::{encode_utf8, is_ascii_chars_encode_utf8};

use crate::bytes::pieces;
use crate::game_log::log_candidates;
#[allow(unused_imports)]
use crate::game_log::{all_user_logs, is_first_true, user_logs};
use crate::path::FilePath;
#[allow(unused_imports)]
use crate::path::{
    components, is_absolute, joined, law_join_appends_steps, law_join_keeps_both_paths, paths_view,
    starts_here, Component, DOT, SLASH,
};

verus! {

/// The profile directories in the listing of a users directory: none where it could not be listed.
pub open spec fn users_of(listing: Option<Vec<FilePath>>) -> Seq<Seq<u8>> {
    match listing {
        Some(users) => paths_view(users@),
        None => Seq::empty(),
    }
}

/// The profile directories of several listings, in their order.
pub open spec fn listed_users(listings: Seq<Option<Vec<FilePath>>>) -> Seq<Seq<u8>>
    decreases listings.len(),
{
    if listings.len() == 0 {
        Seq::empty()
    } else {
        listed_users(listings.drop_last()) + users_of(listings.last())
    }
}

/// The places to look for the log in, given the listings of the users directories of all prefixes,
/// in the order of the prefixes. One that could not be listed is passed over.
pub fn log_places(listings: &[Option<Vec<FilePath>>]) -> (paths: Vec<FilePath>)
    ensures
        paths_view(paths@) == all_user_logs(listed_users(listings@)),
{
    let mut users: Vec<FilePath> = Vec::new();
    let mut i: usize = 0;
    assert(paths_view(users@) =~= listed_users(listings@.take(0)));
    while i < listings.len()
        invariant
            i <= listings@.len(),
            paths_view(users@) == listed_users(listings@.take(i as int)),
        decreases listings@.len() - i,
    {
        let ghost before = paths_view(users@);
        proof {
            assert(listings@.take(i + 1).drop_last() =~= listings@.take(i as int));
            assert(listings@.take(i + 1).last() == listings@[i as int]);
        }
        match &listings[i] {
            Some(listing) => {
                let ghost more = paths_view(listing@);
                let mut j: usize = 0;
                assert(before =~= before + more.take(0));
                while j < listing.len()
                    invariant
                        j <= listing@.len(),
                        more == paths_view(listing@),
                        paths_view(users@) == before + more.take(j as int),
                    decreases listing@.len() - j,
                {
                    let ghost held = paths_view(users@);
                    let user = listing[j].clone();
                    users.push(user);
                    proof {
                        assert(paths_view(users@) =~= held.push(more[j as int]));
                        assert(more.take(j + 1) =~= more.take(j as int).push(more[j as int]));
                        assert(paths_view(users@) =~= before + more.take(j + 1));
                    }
                    j += 1;
                }
                assert(more.take(j as int) =~= more);
            },
            None => {
                assert(before =~= before + Seq::<Seq<u8>>::empty());
            },
        }
        i += 1;
    }
    assert(listings@.take(i as int) =~= listings@);
    log_candidates(users.as_slice())
}

/// Whether one of the places of a user holds a file. `file` says which places do.
pub open spec fn has_log(user: Seq<u8>, file: spec_fn(Seq<u8>) -> bool) -> bool {
    file(user_logs(user)[0]) || file(user_logs(user)[1])
}

/// Whether a directory is an entry of the users directory of a prefix.
pub open spec fn is_user_of(prefix: Seq<u8>, user: Seq<u8>) -> bool {
    exists|name: Seq<u8>|
        !is_absolute(name) && !starts_here(name) && user == #[trigger] joined(
            joined(prefix, encode_utf8("drive_c/users"@)),
            name,
        )
}

/// Whether a path leads into a directory: it has the steps of the directory and more.
pub open spec fn lies_under(path: Seq<u8>, directory: Seq<u8>) -> bool {
    exists|rest: Seq<Component>| components(path) == #[trigger] (components(directory) + rest)
}

/// The places of a user stand two by two.
proof fn lemma_user_logs_at(users: Seq<Seq<u8>>, v: int, k: int)
    requires
        0 <= v < users.len(),
        0 <= k < 2,
    ensures
        all_user_logs(users).len() == 2 * users.len(),
        all_user_logs(users)[2 * v + k] == user_logs(users[v])[k],
    decreases users.len(),
{
    let init = users.drop_last();
    if init.len() > 0 {
        lemma_user_logs_at(init, 0, 0);
    } else {
        assert(all_user_logs(init) == Seq::<Seq<u8>>::empty());
    }
    if v < init.len() {
        lemma_user_logs_at(init, v, k);
    }
}

/// A user of one listing stands behind those of the listings before it.
proof fn lemma_listed_at(listings: Seq<Option<Vec<FilePath>>>, p: int, v: int)
    requires
        0 <= p < listings.len(),
        0 <= v < users_of(listings[p]).len(),
    ensures
        ({
            let before = listed_users(listings.take(p));
            &&& before.len() + v < listed_users(listings).len()
            &&& listed_users(listings)[before.len() + v] == users_of(listings[p])[v]
            &&& forall|j: int| 0 <= j < before.len() ==> #[trigger] listed_users(listings)[j] == before[j]
        }),
    decreases listings.len(),
{
    let init = listings.drop_last();
    if p < init.len() {
        assert(init[p] == listings[p]);
        assert(init.take(p) =~= listings.take(p));
        lemma_listed_at(init, p, v);
    } else {
        assert(listings.take(p) =~= init);
    }
}

/// Every user that is listed stands in one of the listings.
proof fn lemma_listed_from(listings: Seq<Option<Vec<FilePath>>>, j: int) -> (from: (int, int))
    requires
        0 <= j < listed_users(listings).len(),
    ensures
        0 <= from.0 < listings.len(),
        0 <= from.1 < users_of(listings[from.0]).len(),
        users_of(listings[from.0])[from.1] == listed_users(listings)[j],
    decreases listings.len(),
{
    let init = listings.drop_last();
    let before = listed_users(init);
    if j < before.len() {
        let from = lemma_listed_from(init, j);
        assert(init[from.0] == listings[from.0]);
        from
    } else {
        (listings.len() - 1, j - before.len())
    }
}

/// The first part of a text is empty or begins as the text does, and a single part is the text.
proof fn lemma_first_piece(b: Seq<u8>, sep: u8)
    ensures
        pieces(b, sep).len() >= 1,
        pieces(b, sep).len() == 1 ==> pieces(b, sep)[0] == b,
        b.len() > 0 ==> pieces(b, sep)[0].len() == 0 || pieces(b, sep)[0][0] == b[0],
    decreases b.len(),
{
    if b.len() > 0 {
        let init = b.drop_last();
        lemma_first_piece(init, sep);
        assert(init.push(b.last()) =~= b);
    } else {
        assert(b =~= Seq::empty());
    }
}

proof fn lemma_plain_start(path: Seq<u8>)
    requires
        path.len() > 0,
        path[0] != SLASH,
        path[0] != DOT,
    ensures
        !is_absolute(path),
        !starts_here(path),
{
    lemma_first_piece(path, SLASH);
    if starts_here(path) {
        assert(pieces(path, SLASH)[0][0] == DOT);
    }
}

/// The places of a user of a prefix lie under the prefix.
proof fn lemma_places_lie_under(prefix: Seq<u8>, user: Seq<u8>, k: int)
    requires
        is_user_of(prefix, user),
        0 <= k < 2,
    ensures
        lies_under(user_logs(user)[k], prefix),
{
    let users = encode_utf8("drive_c/users"@);
    let first = encode_utf8("AppData/Local/Warframe/EE.log"@);
    let second = encode_utf8("Local Settings/Application Data/Warframe/EE.log"@);
    reveal_strlit("drive_c/users");
    reveal_strlit("AppData/Local/Warframe/EE.log");
    reveal_strlit("Local Settings/Application Data/Warframe/EE.log");
    is_ascii_chars_encode_utf8("drive_c/users"@);
    is_ascii_chars_encode_utf8("AppData/Local/Warframe/EE.log"@);
    is_ascii_chars_encode_utf8("Local Settings/Application Data/Warframe/EE.log"@);
    lemma_plain_start(users);
    lemma_plain_start(first);
    lemma_plain_start(second);
    let last = if k == 0 {
        first
    } else {
        second
    };
    let name = choose|name: Seq<u8>|
        !is_absolute(name) && !starts_here(name) && user == #[trigger] joined(
            joined(prefix, users),
            name,
        );
    law_join_appends_steps(prefix, users);
    law_join_appends_steps(joined(prefix, users), name);
    law_join_appends_steps(user, last);
    let rest = components(users) + components(name) + components(last);
    assert(components(user_logs(user)[k]) =~= components(prefix) + rest);
}

/// The log that is found lies under the first prefix that has one: with one listing for each prefix,
/// if no user of an earlier prefix and no earlier user of this one has a log, the first place with a
/// file is one of this user's, and it is the one below `AppData` if there is a file at both.
pub proof fn law_log_lies_under_the_first_prefix(
    prefixes: Seq<Seq<u8>>,
    listings: Seq<Option<Vec<FilePath>>>,
    file: spec_fn(Seq<u8>) -> bool,
    is_file: Seq<bool>,
    p: int,
    u: int,
)
    requires
        listings.len() == prefixes.len(),
        0 <= p < listings.len(),
        0 <= u < users_of(listings[p]).len(),
        is_user_of(prefixes[p], users_of(listings[p])[u]),
        forall|q: int, v: int|
            0 <= q < p && 0 <= v < users_of(listings[q]).len() ==> !has_log(
                #[trigger] users_of(listings[q])[v],
                file,
            ),
        forall|v: int| 0 <= v < u ==> !has_log(#[trigger] users_of(listings[p])[v], file),
        has_log(users_of(listings[p])[u], file),
        is_file.len() == all_user_logs(listed_users(listings)).len(),
        forall|i: int|
            0 <= i < is_file.len() ==> #[trigger] is_file[i] == file(
                all_user_logs(listed_users(listings))[i],
            ),
    ensures
        ({
            let user = users_of(listings[p])[u];
            let log = if file(user_logs(user)[0]) {
                user_logs(user)[0]
            } else {
                user_logs(user)[1]
            };
            &&& exists|at: int| #[trigger]
                is_first_true(is_file, at) && all_user_logs(listed_users(listings))[at] == log
            &&& lies_under(log, prefixes[p])
        }),
{
    let user = users_of(listings[p])[u];
    let all = listed_users(listings);
    let places = all_user_logs(all);
    let before = listed_users(listings.take(p));
    let o = before.len() as int;
    let k: int = if file(user_logs(user)[0]) {
        0
    } else {
        1
    };
    lemma_listed_at(listings, p, u);
    lemma_user_logs_at(all, o + u, k);
    lemma_places_lie_under(prefixes[p], user, k);
    let at = 2 * (o + u) + k;
    assert(is_file[at] == file(places[at]));
    assert forall|j: int| 0 <= j < at implies !#[trigger] is_file[j] by {
        let v = j / 2;
        let kk = j % 2;
        lemma_user_logs_at(all, v, kk);
        assert(places[j] == user_logs(all[v])[kk]);
        if v < o {
            let from = lemma_listed_from(listings.take(p), v);
            assert(listings.take(p)[from.0] == listings[from.0]);
            assert(all[v] == before[v]);
            assert(!has_log(users_of(listings[from.0])[from.1], file));
        } else if v < o + u {
            lemma_listed_at(listings, p, v - o);
            assert(!has_log(users_of(listings[p])[v - o], file));
        }
    }
    assert(is_first_true(is_file, at));
}

/// A user has two places for the log: below `AppData` and, behind it, below the older
/// `Local Settings`. Both begin with the directory of the user.
pub proof fn law_user_has_two_places(user: Seq<u8>)
    ensures
        ({
            let places = user_logs(user);
            let first = encode_utf8("AppData/Local/Warframe/EE.log"@);
            let second = encode_utf8("Local Settings/Application Data/Warframe/EE.log"@);
            &&& places.len() == 2
            &&& components(places[0]) == components(user) + components(first)
            &&& components(places[1]) == components(user) + components(second)
            &&& places[0].take(user.len() as int) == user
            &&& places[1].take(user.len() as int) == user
            &&& places[0].skip(places[0].len() - first.len()) == first
            &&& places[1].skip(places[1].len() - second.len()) == second
        }),
{
    let first = encode_utf8("AppData/Local/Warframe/EE.log"@);
    let second = encode_utf8("Local Settings/Application Data/Warframe/EE.log"@);
    assert(first.len() > 0 && first[0] != SLASH && first[0] != DOT) by {
        reveal_strlit("AppData/Local/Warframe/EE.log");
        is_ascii_chars_encode_utf8("AppData/Local/Warframe/EE.log"@);
    }
    assert(second.len() > 0 && second[0] != SLASH && second[0] != DOT) by {
        reveal_strlit("Local Settings/Application Data/Warframe/EE.log");
        is_ascii_chars_encode_utf8("Local Settings/Application Data/Warframe/EE.log"@);
    }
    lemma_plain_start(first);
    lemma_plain_start(second);
    law_join_appends_steps(user, first);
    law_join_appends_steps(user, second);
    law_join_keeps_both_paths(user, first);
    law_join_keeps_both_paths(user, second);
}

/// The places of all users are those of each, two by two in the order of the users, and no others.
pub proof fn law_places_stand_two_by_two(users: Seq<Seq<u8>>)
    ensures
        all_user_logs(users).len() == 2 * users.len(),
        forall|v: int|
            0 <= v < users.len() ==> all_user_logs(users)[2 * v] == user_logs(#[trigger] users[v])[0]
                && all_user_logs(users)[2 * v + 1] == user_logs(users[v])[1],
{
    if users.len() > 0 {
        lemma_user_logs_at(users, 0, 0);
    }
    assert forall|v: int| 0 <= v < users.len() implies all_user_logs(users)[2 * v] == user_logs(
        #[trigger] users[v],
    )[0] && all_user_logs(users)[2 * v + 1] == user_logs(users[v])[1] by {
        lemma_user_logs_at(users, v, 0);
        lemma_user_logs_at(users, v, 1);
    }
}

/// The users of several listings are those of the first ones and then those of the last one. A
/// directory that could not be listed has none.
pub proof fn law_listed_users_stand_in_order(
    listings: Seq<Option<Vec<FilePath>>>,
    last: Option<Vec<FilePath>>,
)
    ensures
        listed_users(Seq::<Option<Vec<FilePath>>>::empty()).len() == 0,
        last is None ==> listed_users(listings.push(last)) == listed_users(listings),
        last matches Some(users) ==> {
            &&& listed_users(listings.push(last)).len() == listed_users(listings).len() + users@.len()
            &&& forall|i: int|
                0 <= i < listed_users(listings).len() ==> #[trigger] listed_users(listings.push(last))[i]
                    == listed_users(listings)[i]
            &&& forall|i: int|
                0 <= i < users@.len() ==> listed_users(listings.push(last))[listed_users(
                    listings,
                ).len() + i] == (#[trigger] users@[i])@
        },
{
    assert(listings.push(last).drop_last() =~= listings);
    assert(listed_users(listings) + Seq::<Seq<u8>>::empty() =~= listed_users(listings));
}

} // verus!
