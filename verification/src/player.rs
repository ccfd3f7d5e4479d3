//! Players and the shared roster of connected players: insert on login,
//! look up by identity, update position in place, remove by username on
//! disconnect.

use vstd::prelude::*;

verus! {

/// The game modes a player can be in.
#[derive(Clone, Copy, Debug, PartialEq, Eq, Structural)]
pub enum GameMode {
    Survival,
    Creative,
    Adventure,
    Spectator,
}

impl GameMode {
    /// The byte this mode is sent as on the wire.
    pub open spec fn wire_byte(self) -> u8 {
        match self {
            GameMode::Survival => 0,
            GameMode::Creative => 1,
            GameMode::Adventure => 2,
            GameMode::Spectator => 3,
        }
    }

    pub fn to_wire_byte(self) -> (r: u8)
        ensures
            r == self.wire_byte(),
    {
        match self {
            GameMode::Survival => 0,
            GameMode::Creative => 1,
            GameMode::Adventure => 2,
            GameMode::Spectator => 3,
        }
    }
}

/// A point in the world, held as the IEEE-754 bit patterns of three 64-bit
/// floats. The server never does arithmetic on coordinates; it stores and
/// forwards them, so the bit patterns are the full truth about a position.
#[derive(Clone, Copy, Debug, PartialEq, Eq, Structural)]
pub struct Position {
    pub x_bits: u64,
    pub y_bits: u64,
    pub z_bits: u64,
}

/// The bit pattern of the 64-bit float `64.0`: the spawn height.
pub const SPAWN_Y_BITS: u64 = 0x4050_0000_0000_0000;

/// The bit pattern of the 32-bit float `20.0`: full health.
pub const FULL_HEALTH_BITS: u32 = 0x41A0_0000;

/// Where a freshly logged-in player stands: (0.0, 64.0, 0.0).
pub open spec fn spawn_position() -> Position {
    Position { x_bits: 0, y_bits: SPAWN_Y_BITS, z_bits: 0 }
}

/// One authenticated, connected client.
#[derive(Debug)]
pub struct Player {
    /// Stable 128-bit identity; lookups resolve to the first entry that
    /// carries it.
    pub uuid: u128,
    pub username: String,
    pub position: Position,
    /// Health as a 32-bit float bit pattern.
    pub health_bits: u32,
    pub game_mode: GameMode,
    pub is_operator: bool,
}

impl Clone for Player {
    fn clone(&self) -> (r: Player)
        ensures
            r == *self,
    {
        Player {
            uuid: self.uuid,
            username: self.username.clone(),
            position: self.position,
            health_bits: self.health_bits,
            game_mode: self.game_mode,
            is_operator: self.is_operator,
        }
    }
}

impl Player {
    /// A freshly logged-in player: at spawn, full health, survival mode,
    /// not an operator.
    pub fn new(uuid: u128, username: String) -> (r: Player)
        ensures
            r == (Player {
                uuid,
                username,
                position: spawn_position(),
                health_bits: FULL_HEALTH_BITS,
                game_mode: GameMode::Survival,
                is_operator: false,
            }),
    {
        Player {
            uuid,
            username,
            position: Position { x_bits: 0, y_bits: SPAWN_Y_BITS, z_bits: 0 },
            health_bits: FULL_HEALTH_BITS,
            game_mode: GameMode::Survival,
            is_operator: false,
        }
    }
}

/// Index of the first player in `s` with identity `id`, or `-1`.
pub open spec fn find_uuid_index(s: Seq<Player>, id: u128) -> int
    decreases s.len(),
{
    if s.len() == 0 {
        -1
    } else if s[0].uuid == id {
        0
    } else {
        let r = find_uuid_index(s.skip(1), id);
        if r < 0 {
            -1
        } else {
            r + 1
        }
    }
}

pub open spec fn has_uuid(s: Seq<Player>, id: u128) -> bool {
    exists|i: int| 0 <= i < s.len() && s[i].uuid == id
}

pub open spec fn has_username(s: Seq<Player>, name: Seq<char>) -> bool {
    exists|i: int| 0 <= i < s.len() && s[i].username@ == name
}

/// The roster after removing every player named `name`.
pub open spec fn without_username(s: Seq<Player>, name: Seq<char>) -> Seq<Player>
    decreases s.len(),
{
    if s.len() == 0 {
        s
    } else {
        let rest = without_username(s.drop_last(), name);
        if s.last().username@ == name {
            rest
        } else {
            rest.push(s.last())
        }
    }
}

/// The roster after the first player with identity `id` moves to `pos`;
/// unchanged if no player has that identity.
pub open spec fn with_position(s: Seq<Player>, id: u128, pos: Position) -> Seq<Player> {
    let i = find_uuid_index(s, id);
    if i < 0 {
        s
    } else {
        s.update(i, Player { position: pos, ..s[i] })
    }
}

/// `find_uuid_index` points at the first match, and is `-1` exactly when
/// there is none.
pub proof fn lemma_find_uuid_index(s: Seq<Player>, id: u128)
    ensures
        -1 <= find_uuid_index(s, id) < s.len(),
        find_uuid_index(s, id) == -1 <==> !has_uuid(s, id),
        find_uuid_index(s, id) >= 0 ==> s[find_uuid_index(s, id)].uuid == id,
        forall|j: int| 0 <= j < find_uuid_index(s, id) ==> s[j].uuid != id,
    decreases s.len(),
{
    if s.len() == 0 {
    } else if s[0].uuid == id {
    } else {
        lemma_find_uuid_index(s.skip(1), id);
        let r = find_uuid_index(s.skip(1), id);
        assert(forall|j: int| 0 <= j < s.skip(1).len() ==> s.skip(1)[j] == s[j + 1]);
        if r < 0 {
            assert(!has_uuid(s.skip(1), id));
            assert forall|i: int| 0 <= i < s.len() implies s[i].uuid != id by {
                if i > 0 {
                    assert(s[i] == s.skip(1)[i - 1]);
                }
            }
        } else {
            assert(s.skip(1)[r].uuid == id);
            assert forall|j: int| 0 <= j < find_uuid_index(s, id) implies s[j].uuid != id by {
                if j > 0 {
                    assert(s.skip(1)[j - 1].uuid != id);
                }
            }
        }
    }
}

/// The shared collection of connected players.
pub struct Roster {
    players: Vec<Player>,
}

impl View for Roster {
    type V = Seq<Player>;

    closed spec fn view(&self) -> Seq<Player> {
        self.players@
    }
}

impl Roster {
    pub fn new() -> (r: Roster)
        ensures
            r@ == Seq::<Player>::empty(),
    {
        Roster { players: Vec::new() }
    }

    pub fn len(&self) -> (r: usize)
        ensures
            r == self@.len(),
    {
        self.players.len()
    }

    /// A copy of the player at `i`.
    pub fn get(&self, i: usize) -> (r: Player)
        requires
            i < self@.len(),
        ensures
            r == self@[i as int],
    {
        self.players[i].clone()
    }

    /// Append a player; no username uniqueness is enforced here.
    pub fn insert(&mut self, p: Player)
        ensures
            final(self)@ == old(self)@.push(p),
    {
        self.players.push(p);
    }

    /// Linear scan for the first player with identity `id`.
    pub fn find_by_identity(&self, id: u128) -> (r: Option<&Player>)
        ensures
            (match r {
                Some(p) => find_uuid_index(self@, id) >= 0 && *p == self@[find_uuid_index(
                    self@,
                    id,
                )],
                None => !has_uuid(self@, id),
            }),
    {
        proof {
            lemma_find_uuid_index(self@, id);
        }
        let n = self.players.len();
        let mut i: usize = 0;
        while i < n
            invariant
                n == self@.len(),
                0 <= i <= n,
                forall|j: int| 0 <= j < i ==> self@[j].uuid != id,
                find_uuid_index(self@, id) == -1 <==> !has_uuid(self@, id),
                find_uuid_index(self@, id) >= 0 ==> self@[find_uuid_index(self@, id)].uuid
                    == id,
                forall|j: int| 0 <= j < find_uuid_index(self@, id) ==> self@[j].uuid != id,
                -1 <= find_uuid_index(self@, id) < self@.len(),
            decreases n - i,
        {
            if self.players[i].uuid == id {
                return Some(&self.players[i]);
            }
            i = i + 1;
        }
        None
    }

    /// Whether any player is named `name`.
    pub fn contains_username(&self, name: &String) -> (r: bool)
        ensures
            r == has_username(self@, name@),
    {
        let n = self.players.len();
        let mut i: usize = 0;
        while i < n
            invariant
                n == self@.len(),
                0 <= i <= n,
                forall|j: int| 0 <= j < i ==> self@[j].username@ != name@,
            decreases n - i,
        {
            if self.players[i].username == *name {
                return true;
            }
            i = i + 1;
        }
        false
    }

    /// Remove every player named `name` (used on disconnect).
    pub fn remove_by_username(&mut self, name: &String)
        ensures
            final(self)@ == without_username(old(self)@, name@),
    {
        let ghost s = self@;
        let n = self.players.len();
        let mut out: Vec<Player> = Vec::new();
        let mut i: usize = 0;
        proof {
            assert(s.take(0) =~= Seq::<Player>::empty());
        }
        while i < n
            invariant
                self@ == s,
                n == s.len(),
                0 <= i <= n,
                out@ == without_username(s.take(i as int), name@),
            decreases n - i,
        {
            proof {
                assert(s.take(i + 1).drop_last() =~= s.take(i as int));
                assert(s.take(i + 1).last() == s[i as int]);
            }
            if !(self.players[i].username == *name) {
                let p = self.players[i].clone();
                out.push(p);
            }
            i = i + 1;
        }
        proof {
            assert(s.take(n as int) =~= s);
        }
        self.players = out;
    }

    /// Move the first player with identity `id` to `pos`; a miss changes
    /// nothing. The whole update happens under one borrow of the roster, so
    /// no caller can observe a half-updated record.
    pub fn update_position(&mut self, id: u128, pos: Position)
        ensures
            final(self)@ == with_position(old(self)@, id, pos),
    {
        proof {
            lemma_find_uuid_index(self@, id);
        }
        let ghost s = self@;
        let n = self.players.len();
        let mut i: usize = 0;
        while i < n
            invariant
                self@ == s,
                old(self)@ == s,
                n == s.len(),
                0 <= i <= n,
                forall|j: int| 0 <= j < i ==> s[j].uuid != id,
                -1 <= find_uuid_index(s, id) < s.len(),
                find_uuid_index(s, id) == -1 <==> !has_uuid(s, id),
                find_uuid_index(s, id) >= 0 ==> s[find_uuid_index(s, id)].uuid == id,
                forall|j: int| 0 <= j < find_uuid_index(s, id) ==> s[j].uuid != id,
            decreases n - i,
        {
            if self.players[i].uuid == id {
                proof {
                    assert(has_uuid(s, id)) by {
                        assert(0 <= i < s.len() && s[i as int].uuid == id);
                    }
                    assert(find_uuid_index(s, id) == i);
                }
                let mut p = self.players[i].clone();
                p.position = pos;
                proof {
                    assert(p == (Player { position: pos, ..s[i as int] }));
                }
                self.players.set(i, p);
                proof {
                    assert(self@ =~= with_position(s, id, pos));
                }
                return ;
            }
            i = i + 1;
        }
        proof {
            assert(!has_uuid(s, id));
        }
    }
}

/// Inserting a player whose username is absent from the roster and then
/// removing that username restores the roster exactly: same players, same
/// order, and in particular no entry left under the new player's identity.
pub proof fn lemma_insert_remove_restores(s: Seq<Player>, p: Player)
    requires
        !has_username(s, p.username@),
    ensures
        without_username(s.push(p), p.username@) == s,
    decreases s.len(),
{
    let name = p.username@;
    assert(s.push(p).drop_last() =~= s);
    assert(s.push(p).last() == p);
    lemma_without_absent_username(s, name);
}

/// Removing a username that no player has changes nothing.
proof fn lemma_without_absent_username(s: Seq<Player>, name: Seq<char>)
    requires
        !has_username(s, name),
    ensures
        without_username(s, name) == s,
    decreases s.len(),
{
    if s.len() == 0 {
        assert(without_username(s, name) =~= s);
    } else {
        assert(s.last().username@ != name) by {
            assert(s[s.len() - 1] == s.last());
        }
        assert forall|i: int| 0 <= i < s.drop_last().len() implies s.drop_last()[i].username@
            != name by {
            assert(s.drop_last()[i] == s[i]);
        }
        lemma_without_absent_username(s.drop_last(), name);
        assert(without_username(s, name) =~= s);
    }
}

/// Updates to distinct identities are independent: moving the player with
/// one identity neither changes which entry another identity resolves to
/// nor that entry's contents, and the moved player's entry carries exactly
/// the written position. Under the roster's lock, concurrent updates
/// serialize, so this is the no-lost-update, no-cross-corruption property.
pub proof fn lemma_update_independent(s: Seq<Player>, id: u128, other: u128, pos: Position)
    requires
        id != other,
    ensures
        find_uuid_index(with_position(s, id, pos), other) == find_uuid_index(s, other),
        find_uuid_index(s, other) >= 0 ==> with_position(s, id, pos)[find_uuid_index(s, other)]
            == s[find_uuid_index(s, other)],
        find_uuid_index(s, id) >= 0 ==> with_position(s, id, pos)[find_uuid_index(s, id)] == (
        Player { position: pos, ..s[find_uuid_index(s, id)] }),
{
    lemma_find_uuid_index(s, id);
    lemma_find_uuid_index(s, other);
    let t = with_position(s, id, pos);
    lemma_find_uuid_index_same_uuids(s, t, other);
}

/// A batch of position updates, each naming a target identity and the
/// position written for it, applied in order.
pub open spec fn apply_updates(s: Seq<Player>, ups: Seq<(u128, Position)>) -> Seq<Player>
    decreases ups.len(),
{
    if ups.len() == 0 {
        s
    } else {
        with_position(apply_updates(s, ups.drop_last()), ups.last().0, ups.last().1)
    }
}

/// Whether some update in the batch is aimed at `id`.
pub open spec fn targets(ups: Seq<(u128, Position)>, id: u128) -> bool {
    exists|j: int| 0 <= j < ups.len() && ups[j].0 == id
}

/// Whether the batch aims every update at a different identity.
pub open spec fn distinct_targets(ups: Seq<(u128, Position)>) -> bool {
    forall|i: int, j: int| 0 <= i < j < ups.len() ==> ups[i].0 != ups[j].0
}

/// N position updates aimed at pairwise-distinct identities — in whatever
/// order the lock grants them — leave each targeted entry holding exactly
/// its own written position, with every other field intact, and leave every
/// entry with an untargeted identity exactly as it was: no lost updates and
/// no cross-player corruption, for any batch size.
pub proof fn lemma_batch_updates(s: Seq<Player>, ups: Seq<(u128, Position)>)
    requires
        distinct_targets(ups),
    ensures
        apply_updates(s, ups).len() == s.len(),
        forall|j: int|
            #![trigger ups[j]]
            0 <= j < ups.len() ==> {
                let fi = find_uuid_index(s, ups[j].0);
                find_uuid_index(apply_updates(s, ups), ups[j].0) == fi && (fi >= 0
                    ==> apply_updates(s, ups)[fi] == (Player { position: ups[j].1, ..s[fi] }))
            },
        forall|id: u128|
            #![trigger find_uuid_index(apply_updates(s, ups), id)]
            !targets(ups, id) ==> {
                let fi = find_uuid_index(s, id);
                find_uuid_index(apply_updates(s, ups), id) == fi && (fi >= 0 ==> apply_updates(
                    s,
                    ups,
                )[fi] == s[fi])
            },
    decreases ups.len(),
{
    if ups.len() == 0 {
    } else {
        let ups0 = ups.drop_last();
        let u = ups.last();
        let t0 = apply_updates(s, ups0);
        let t = apply_updates(s, ups);
        assert(u == ups[ups.len() - 1]);
        assert forall|i: int, j: int| 0 <= i < j < ups0.len() implies ups0[i].0 != ups0[j].0 by {
            assert(ups0[i] == ups[i] && ups0[j] == ups[j]);
        }
        lemma_batch_updates(s, ups0);
        assert(!targets(ups0, u.0)) by {
            if targets(ups0, u.0) {
                let k = choose|k: int| 0 <= k < ups0.len() && ups0[k].0 == u.0;
                assert(ups0[k] == ups[k]);
                assert(ups[k].0 != ups[ups.len() - 1].0);
            }
        }
        lemma_find_uuid_index(s, u.0);
        lemma_find_uuid_index(t0, u.0);
        let fi = find_uuid_index(s, u.0);
        assert(find_uuid_index(t0, u.0) == fi && (fi >= 0 ==> t0[fi] == s[fi]));
        assert(t == with_position(t0, u.0, u.1));
        if fi >= 0 {
            assert(t == t0.update(fi, Player { position: u.1, ..t0[fi] }));
        } else {
            assert(t == t0);
        }
        assert(t.len() == t0.len() == s.len());
        assert forall|i: int| 0 <= i < t.len() implies t[i].uuid == t0[i].uuid by {}
        assert forall|j: int|
            #![trigger ups[j]]
            0 <= j < ups.len() implies {
                let fj = find_uuid_index(s, ups[j].0);
                find_uuid_index(t, ups[j].0) == fj && (fj >= 0 ==> t[fj] == (Player {
                    position: ups[j].1,
                    ..s[fj]
                }))
            } by {
            lemma_find_uuid_index_same_uuids(t0, t, ups[j].0);
            lemma_find_uuid_index(s, ups[j].0);
            if j == ups.len() - 1 {
                assert(ups[j] == u);
                if fi >= 0 {
                    assert(t[fi] == (Player { position: u.1, ..t0[fi] }));
                    assert(t0[fi] == s[fi]);
                }
            } else {
                assert(ups0[j] == ups[j]);
                assert(ups[j].0 != u.0);
                let fj = find_uuid_index(s, ups[j].0);
                if fj >= 0 {
                    assert(s[fj].uuid == ups[j].0);
                    if fi >= 0 {
                        assert(s[fi].uuid == u.0);
                        assert(fj != fi);
                    }
                    assert(t[fj] == t0[fj]);
                }
            }
        }
        assert forall|id: u128|
            #![trigger find_uuid_index(t, id)]
            !targets(ups, id) implies {
                let fid = find_uuid_index(s, id);
                find_uuid_index(t, id) == fid && (fid >= 0 ==> t[fid] == s[fid])
            } by {
            lemma_find_uuid_index_same_uuids(t0, t, id);
            lemma_find_uuid_index(s, id);
            assert(id != u.0) by {
                if id == u.0 {
                    assert(0 <= ups.len() - 1 < ups.len() && ups[ups.len() - 1].0 == id);
                }
            }
            assert(!targets(ups0, id)) by {
                if targets(ups0, id) {
                    let k = choose|k: int| 0 <= k < ups0.len() && ups0[k].0 == id;
                    assert(ups0[k] == ups[k]);
                    assert(0 <= k < ups.len() && ups[k].0 == id);
                }
            }
            assert(find_uuid_index(apply_updates(s, ups0), id) == find_uuid_index(s, id) && (
            find_uuid_index(s, id) >= 0 ==> apply_updates(s, ups0)[find_uuid_index(s, id)]
                == s[find_uuid_index(s, id)]));
            assert(find_uuid_index(t0, id) == find_uuid_index(s, id) && (find_uuid_index(s, id)
                >= 0 ==> t0[find_uuid_index(s, id)] == s[find_uuid_index(s, id)]));
            let fid = find_uuid_index(s, id);
            if fid >= 0 {
                assert(s[fid].uuid == id);
                if fi >= 0 {
                    assert(s[fi].uuid == u.0);
                    assert(fid != fi);
                }
                assert(t[fid] == t0[fid]);
            }
        }
    }
}

/// At most one roster entry per identity.
pub open spec fn unique_ids(s: Seq<Player>) -> bool {
    forall|i: int, j: int| 0 <= i < j < s.len() ==> s[i].uuid != s[j].uuid
}

/// Appending a player whose identity is absent keeps identities unique.
pub proof fn lemma_unique_ids_push(s: Seq<Player>, p: Player)
    requires
        unique_ids(s),
        !has_uuid(s, p.uuid),
    ensures
        unique_ids(s.push(p)),
{
    let t = s.push(p);
    assert forall|i: int, j: int| 0 <= i < j < t.len() implies t[i].uuid != t[j].uuid by {
        if j < s.len() {
            assert(t[i] == s[i] && t[j] == s[j]);
        } else {
            assert(t[j] == p);
            assert(t[i] == s[i]);
            if s[i].uuid == p.uuid {
                assert(has_uuid(s, p.uuid)) by {
                    assert(0 <= i < s.len() && s[i].uuid == p.uuid);
                }
            }
        }
    }
}

/// Moving a player keeps every identity at its index, so identities stay
/// unique.
pub proof fn lemma_with_position_unique(s: Seq<Player>, id: u128, pos: Position)
    requires
        unique_ids(s),
    ensures
        unique_ids(with_position(s, id, pos)),
{
    lemma_find_uuid_index(s, id);
    let t = with_position(s, id, pos);
    assert(t.len() == s.len());
    assert forall|i: int, j: int| 0 <= i < j < t.len() implies t[i].uuid != t[j].uuid by {
        assert(t[i].uuid == s[i].uuid && t[j].uuid == s[j].uuid);
    }
}

/// Removing a username keeps only entries of the original roster, so
/// identities stay unique.
pub proof fn lemma_without_username_unique(s: Seq<Player>, name: Seq<char>)
    requires
        unique_ids(s),
    ensures
        unique_ids(without_username(s, name)),
        forall|i: int|
            0 <= i < without_username(s, name).len() ==> has_uuid(
                s,
                #[trigger] without_username(s, name)[i].uuid,
            ),
    decreases s.len(),
{
    if s.len() == 0 {
    } else {
        let s0 = s.drop_last();
        assert forall|i: int, j: int| 0 <= i < j < s0.len() implies s0[i].uuid != s0[j].uuid by {
            assert(s0[i] == s[i] && s0[j] == s[j]);
        }
        lemma_without_username_unique(s0, name);
        let w0 = without_username(s0, name);
        let w = without_username(s, name);
        assert forall|i: int| 0 <= i < w0.len() implies has_uuid(s, w0[i].uuid) by {
            assert(has_uuid(s0, w0[i].uuid));
            let k = choose|k: int| 0 <= k < s0.len() && s0[k].uuid == w0[i].uuid;
            assert(s[k] == s0[k]);
            assert(0 <= k < s.len() && s[k].uuid == w0[i].uuid);
        }
        if s.last().username@ == name {
            assert(w == w0);
        } else {
            assert(w == w0.push(s.last()));
            assert forall|i: int, j: int| 0 <= i < j < w.len() implies w[i].uuid != w[j].uuid by {
                if j < w0.len() {
                    assert(w[i] == w0[i] && w[j] == w0[j]);
                } else {
                    assert(w[j] == s.last());
                    assert(w[i] == w0[i]);
                    if w0[i].uuid == s.last().uuid {
                        assert(has_uuid(s0, w0[i].uuid));
                        let k = choose|k: int| 0 <= k < s0.len() && s0[k].uuid == w0[i].uuid;
                        assert(s[k] == s0[k]);
                        assert(s.last() == s[s.len() - 1]);
                        assert(s[k].uuid != s[s.len() - 1].uuid);
                    }
                }
            }
            assert forall|i: int| 0 <= i < w.len() implies has_uuid(s, w[i].uuid) by {
                if i < w0.len() {
                    assert(w[i] == w0[i]);
                } else {
                    assert(w[i] == s.last());
                    assert(0 <= s.len() - 1 < s.len() && s[s.len() - 1].uuid == w[i].uuid);
                }
            }
        }
    }
}

/// Two rosters whose entries carry the same identities slot for slot
/// resolve every identity to the same index.
proof fn lemma_find_uuid_index_same_uuids(s: Seq<Player>, t: Seq<Player>, id: u128)
    requires
        s.len() == t.len(),
        forall|i: int| 0 <= i < s.len() ==> s[i].uuid == t[i].uuid,
    ensures
        find_uuid_index(s, id) == find_uuid_index(t, id),
    decreases s.len(),
{
    if s.len() == 0 {
    } else if s[0].uuid == id {
    } else {
        assert forall|i: int| 0 <= i < s.skip(1).len() implies s.skip(1)[i].uuid == t.skip(
            1,
        )[i].uuid by {
            assert(s.skip(1)[i] == s[i + 1] && t.skip(1)[i] == t[i + 1]);
        }
        lemma_find_uuid_index_same_uuids(s.skip(1), t.skip(1), id);
    }
}

} // verus!
