//! The arena: player capacity, spawn choice and the server's admission of
//! join requests.
use vstd::prelude::*;
use crate::nickname::{validate, validation};

verus! {

pub const MAX_PLAYERS: usize = 16;

/// `k` is how many steps after `start`, going round the spawns, the first
/// clear spawn lies.
pub open spec fn first_clear(clear: Seq<bool>, start: int, k: int) -> bool {
    &&& 0 <= k < clear.len()
    &&& clear[(start + k) % clear.len() as int]
    &&& forall|m: int| 0 <= m < k ==> !#[trigger] clear[(start + m) % clear.len() as int]
}

/// The index of the largest key among the first `n`, the last one on ties.
pub open spec fn farthest(keys: Seq<i32>, n: int) -> int
    decreases n,
{
    if n <= 1 {
        0
    } else {
        let best = farthest(keys, n - 1);
        if keys[n - 1] >= keys[best] {
            n - 1
        } else {
            best
        }
    }
}

proof fn lemma_farthest_range(keys: Seq<i32>, n: int)
    requires
        n >= 1,
    ensures
        0 <= farthest(keys, n) < n,
    decreases n,
{
    if n > 1 {
        lemma_farthest_range(keys, n - 1);
    }
}

/// Pick a spawn for a joining player.  Starting at `random_index` and going
/// round, take the first spawn that is `clear` (no player within two
/// meters); if none is, take the spawn whose nearest player is farthest away,
/// the last such spawn on ties.  `nearest_keys[k]` orders the distance from
/// spawn `k` to its nearest player as `f32::total_cmp` orders it.
pub fn choose_spawn(random_index: usize, clear: &[bool], nearest_keys: &[i32]) -> (index: usize)
    requires
        clear@.len() > 0,
        nearest_keys@.len() == clear@.len(),
    ensures
        index < clear@.len(),
        (exists|k: int| first_clear(clear@, random_index as int, k)) ==> exists|k: int|
            first_clear(clear@, random_index as int, k) && index == (random_index + k) % clear@.len() as int,
        !(exists|k: int| first_clear(clear@, random_index as int, k)) ==> index == farthest(
            nearest_keys@,
            clear@.len() as int,
        ),
{
    let n = clear.len();
    let start = random_index % n;
    let mut offset: usize = 0;
    while offset < n
        invariant
            0 <= offset <= n,
            n == clear@.len(),
            start == (random_index as int) % (n as int),
            forall|m: int| 0 <= m < offset ==> !#[trigger] clear@[(random_index + m) % n as int],
        decreases n - offset,
    {
        let index = if offset < n - start {
            start + offset
        } else {
            offset - (n - start)
        };
        assert(index == (start + offset) % n as int) by {
            if offset >= n - start {
                vstd::arithmetic::div_mod::lemma_mod_add_multiples_vanish((start + offset - n) as int, n as int);
                vstd::arithmetic::div_mod::lemma_small_mod((start + offset - n) as nat, n as nat);
            } else {
                vstd::arithmetic::div_mod::lemma_small_mod((start + offset) as nat, n as nat);
            }
        }
        assert(index == (random_index + offset) % n as int) by {
            vstd::arithmetic::div_mod::lemma_add_mod_noop(random_index as int, offset as int, n as int);
            vstd::arithmetic::div_mod::lemma_small_mod(offset as nat, n as nat);
        }
        if clear[index] {
            assert(first_clear(clear@, random_index as int, offset as int));
            return index;
        }
        offset = offset + 1;
    }
    assert forall|k: int| !first_clear(clear@, random_index as int, k) by {
        if 0 <= k < n {
            assert(!clear@[(random_index + k) % n as int]);
        }
    }
    let mut best: usize = 0;
    let mut k: usize = 1;
    while k < n
        invariant
            1 <= k <= n,
            n == nearest_keys@.len(),
            best == farthest(nearest_keys@, k as int),
            best < k,
        decreases n - k,
    {
        if nearest_keys[k] >= nearest_keys[best] {
            best = k;
        }
        k = k + 1;
    }
    best
}

/// What the server does with a join request.
#[derive(Clone, Debug, PartialEq)]
pub enum Admission {
    /// The connection already joined: the request is ignored.
    Ignored,
    /// The request is refused with this reason.
    Rejected(String),
    /// The player joins under this validated nickname.
    Admitted(String),
}

/// Decide a join request from a connection that has `joined` already (or
/// not), asking for `nickname`, while `players` players are in the arena:
/// a second request is ignored, an invalid nickname is refused with the
/// validation's reason, a full arena refuses everyone.
pub fn review_join(joined: bool, nickname: &str, players: usize) -> (a: Admission)
    ensures
        joined ==> a == Admission::Ignored,
        !joined ==> match validation(nickname@) {
            Err(reason) => a matches Admission::Rejected(r) && r@ == reason,
            Ok(name) => if players >= MAX_PLAYERS {
                a matches Admission::Rejected(r) && r@ == "The server is full. Please try again later."@
            } else {
                a matches Admission::Admitted(n) && n@ == name
            },
        },
{
    if joined {
        return Admission::Ignored;
    }
    match validate(nickname) {
        Err(reason) => Admission::Rejected(reason.to_owned()),
        Ok(name) => {
            if players >= MAX_PLAYERS {
                Admission::Rejected("The server is full. Please try again later.".to_owned())
            } else {
                Admission::Admitted(name)
            }
        },
    }
}

/// `a` is what `review_join` answers to a connection that has `joined`
/// already (or not), asking for `nickname`, while `players` players are in the arena.
pub open spec fn decided(a: Admission, joined: bool, nickname: Seq<char>, players: int) -> bool {
    if joined {
        a == Admission::Ignored
    } else {
        match validation(nickname) {
            Err(reason) => a matches Admission::Rejected(r) && r@ == reason,
            Ok(name) => if players >= MAX_PLAYERS {
                a matches Admission::Rejected(r) && r@ == "The server is full. Please try again later."@
            } else {
                a matches Admission::Admitted(n) && n@ == name
            },
        }
    }
}

/// How many of the decisions `ds` admit a player.
pub open spec fn admitted(ds: Seq<Admission>) -> nat
    decreases ds.len(),
{
    if ds.len() == 0 {
        0
    } else {
        admitted(ds.drop_last()) + if ds.last() is Admitted {
            1nat
        } else {
            0nat
        }
    }
}

/// `ds` answers the requests `nicknames` of one connection in order: each
/// request is decided with the connection counted as joined once an earlier
/// one was admitted, and with the players admitted before it counted in.
pub open spec fn link_reviewed(ds: Seq<Admission>, joined: bool, nicknames: Seq<Seq<char>>, players: int) -> bool {
    &&& ds.len() == nicknames.len()
    &&& forall|k: int|
        0 <= k < ds.len() ==> decided(
            #[trigger] ds[k],
            joined || admitted(ds.take(k)) > 0,
            nicknames[k],
            players + admitted(ds.take(k)),
        )
}

/// Answer the join requests `nicknames` that one connection sent this frame,
/// in order, while `players` players are in the arena.  A connection joins at
/// most once, and never into a full arena.
pub fn review_link(joined: bool, nicknames: &Vec<String>, players: usize) -> (ds: Vec<Admission>)
    ensures
        link_reviewed(ds@, joined, nicknames@.map_values(|n: String| n@), players as int),
        admitted(ds@) <= 1,
        joined ==> admitted(ds@) == 0,
        admitted(ds@) > 0 ==> players < MAX_PLAYERS,
{
    let ghost names = nicknames@.map_values(|n: String| n@);
    let mut ds: Vec<Admission> = Vec::new();
    let mut now_joined = joined;
    let mut count = players;
    let mut k: usize = 0;
    while k < nicknames.len()
        invariant
            0 <= k <= nicknames@.len(),
            names == nicknames@.map_values(|n: String| n@),
            ds@.len() == k,
            now_joined == (joined || admitted(ds@) > 0),
            count == players + admitted(ds@),
            admitted(ds@) <= 1,
            joined ==> admitted(ds@) == 0,
            admitted(ds@) > 0 ==> players < MAX_PLAYERS,
            forall|m: int|
                0 <= m < k ==> decided(
                    #[trigger] ds@[m],
                    joined || admitted(ds@.take(m)) > 0,
                    names[m],
                    players + admitted(ds@.take(m)),
                ),
        decreases nicknames@.len() - k,
    {
        let a = review_join(now_joined, nicknames[k].as_str(), count);
        let ghost before = ds@;
        let joins_now = match &a {
            Admission::Admitted(_) => true,
            _ => false,
        };
        ds.push(a);
        proof {
            assert(ds@.drop_last() =~= before);
            assert(ds@.take(k as int) =~= before);
            assert forall|m: int| 0 <= m < k implies ds@.take(m) =~= before.take(m) by {}
        }
        if joins_now {
            now_joined = true;
            count = count + 1;
        }
        k = k + 1;
    }
    assert(ds@.take(ds@.len() as int) =~= ds@);
    ds
}

/// Players admitted by a frame's decisions, over all connections.
pub open spec fn frame_admitted(dss: Seq<Vec<Admission>>) -> nat
    decreases dss.len(),
{
    if dss.len() == 0 {
        0
    } else {
        frame_admitted(dss.drop_last()) + admitted(dss.last()@)
    }
}

/// Answer one frame's join requests: `links[l]` is a connection, whether it
/// joined already, and the nicknames it asked for, in order; `players`
/// players are in the arena.  Connections are reviewed in order, each seeing
/// the players admitted before it.  At most one player joins per connection,
/// none for a connection that joined already, and the arena never grows past
/// `MAX_PLAYERS`: at most `MAX_PLAYERS - players` join.
pub fn review_frame(links: &Vec<(bool, Vec<String>)>, players: usize) -> (dss: Vec<Vec<Admission>>)
    ensures
        dss@.len() == links@.len(),
        forall|l: int|
            0 <= l < dss@.len() ==> link_reviewed(
                (#[trigger] dss@[l])@,
                links@[l].0,
                links@[l].1@.map_values(|n: String| n@),
                players + frame_admitted(dss@.take(l)),
            ),
        forall|l: int| 0 <= l < dss@.len() ==> admitted((#[trigger] dss@[l])@) <= 1,
        forall|l: int| 0 <= l < dss@.len() && links@[l].0 ==> admitted((#[trigger] dss@[l])@) == 0,
        players >= MAX_PLAYERS ==> frame_admitted(dss@) == 0,
        players < MAX_PLAYERS ==> players + frame_admitted(dss@) <= MAX_PLAYERS,
{
    let mut dss: Vec<Vec<Admission>> = Vec::new();
    let mut count = players;
    let mut l: usize = 0;
    while l < links.len()
        invariant
            0 <= l <= links@.len(),
            dss@.len() == l,
            count == players + frame_admitted(dss@),
            players >= MAX_PLAYERS ==> frame_admitted(dss@) == 0,
            players < MAX_PLAYERS ==> count <= MAX_PLAYERS,
            forall|m: int|
                0 <= m < l ==> link_reviewed(
                    (#[trigger] dss@[m])@,
                    links@[m].0,
                    links@[m].1@.map_values(|n: String| n@),
                    players + frame_admitted(dss@.take(m)),
                ),
            forall|m: int| 0 <= m < l ==> admitted((#[trigger] dss@[m])@) <= 1,
            forall|m: int| 0 <= m < l && links@[m].0 ==> admitted((#[trigger] dss@[m])@) == 0,
        decreases links@.len() - l,
    {
        let ds = review_link(links[l].0, &links[l].1, count);
        let ghost before = dss@;
        let added = if ds.len() > 0 && admitted_any(&ds) {
            1usize
        } else {
            0usize
        };
        proof {
            if ds@.len() == 0 {
                assert(admitted(ds@) == 0);
            }
        }
        dss.push(ds);
        proof {
            assert(dss@.drop_last() =~= before);
            assert(dss@.take(l as int) =~= before);
            assert forall|m: int| 0 <= m < l implies dss@.take(m) =~= before.take(m) by {}
        }
        count = count + added;
        l = l + 1;
    }
    assert(dss@.take(dss@.len() as int) =~= dss@);
    dss
}

/// Whether some decision of `ds` admits a player.
fn admitted_any(ds: &Vec<Admission>) -> (any: bool)
    ensures
        any == (admitted(ds@) > 0),
{
    let mut k: usize = 0;
    while k < ds.len()
        invariant
            0 <= k <= ds@.len(),
            admitted(ds@.take(k as int)) == 0,
        decreases ds@.len() - k,
    {
        assert(ds@.take(k + 1).drop_last() =~= ds@.take(k as int));
        if let Admission::Admitted(_) = &ds[k] {
            proof { lemma_admitted_prefix(ds@, k + 1); }
            return true;
        }
        k = k + 1;
    }
    assert(ds@.take(ds@.len() as int) =~= ds@);
    false
}

proof fn lemma_admitted_prefix(ds: Seq<Admission>, k: int)
    requires
        0 <= k <= ds.len(),
    ensures
        admitted(ds.take(k)) <= admitted(ds),
    decreases ds.len() - k,
{
    if k < ds.len() {
        lemma_admitted_prefix(ds, k + 1);
        assert(ds.take(k + 1).drop_last() =~= ds.take(k));
    } else {
        assert(ds.take(k) =~= ds);
    }
}

} // verus!
