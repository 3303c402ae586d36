use crate::buffer;
use crate::buffer::{
    after_inflate, decode_len, frame_complete, is_text_end, le32, lemma_text_end_unique,
    prefix_width, terminated, text_consumed, text_of, zlib_inflate_chunk, Buffer, CHUNK_SIZE,
    FRAME_CAPACITY,
};
use crate::packet_builder::{
    auth_payload, build_message_packet, flag_byte, framed, message_payload, ROSTER_TYPE,
};
use crate::player;
use crate::player::{local_name, Player, PlayerView};
use vstd::prelude::*;
use vstd::string::{StrSliceExecFns, StringExecFns};

verus! {

/// An outbound message: the network identity of the player it goes to, and its bytes.
pub struct Delivery {
    pub to: u32,
    pub packet: Buffer,
}

/// What the contracts see of a list of deliveries.
pub open spec fn deliveries(d: Seq<Delivery>) -> Seq<(u32, Seq<u8>)> {
    d.map_values(|x: Delivery| (x.to, x.packet.data@))
}

/// The players' views, in registry order.
pub open spec fn views(ps: Seq<Player>) -> Seq<PlayerView> {
    ps.map_values(|p: Player| p@)
}

/// Network identities strictly increase along the registry.
pub open spec fn ids_increasing(ps: Seq<PlayerView>) -> bool {
    forall|i: int, j: int| 0 <= i < j < ps.len() ==> #[trigger] ps[i].net_id < #[trigger] ps[j].net_id
}

/// One copy of `packet` to every player.
pub open spec fn sends_all(ps: Seq<PlayerView>, packet: Seq<u8>) -> Seq<(u32, Seq<u8>)> {
    ps.map_values(|p: PlayerView| (p.net_id, packet))
}

/// One copy of `packet` to every player whose identity is not `id`, in registry order.
pub open spec fn sends_except(ps: Seq<PlayerView>, id: u32, packet: Seq<u8>) -> Seq<(u32, Seq<u8>)>
    decreases ps.len(),
{
    if ps.len() == 0 {
        seq![]
    } else {
        let prev = sends_except(ps.drop_last(), id, packet);
        if ps.last().net_id == id {
            prev
        } else {
            prev.push((ps.last().net_id, packet))
        }
    }
}

/// A player's public fields as a roster lists them.
pub open spec fn roster_entry(p: PlayerView) -> Seq<u8> {
    le32(p.net_id as nat) + terminated(p.username) + le32(p.user_id as nat) + seq![
        flag_byte(p.admin),
        p.membership,
    ]
}

/// The roster entries of the players, in registry order.
pub open spec fn roster_entries(ps: Seq<PlayerView>) -> Seq<u8>
    decreases ps.len(),
{
    if ps.len() == 0 {
        seq![]
    } else {
        roster_entries(ps.drop_last()) + roster_entry(ps.last())
    }
}

/// The payload that announces one joining player.
pub open spec fn join_payload(p: PlayerView) -> Seq<u8> {
    seq![ROSTER_TYPE, 1u8] + roster_entry(p)
}

/// The payload of the batched roster of `ps`; the count byte holds their number modulo 256.
pub open spec fn roster_payload(ps: Seq<PlayerView>) -> Seq<u8> {
    seq![ROSTER_TYPE, (ps.len() % 0x100) as u8] + roster_entries(ps)
}

/// What a join sends, given the players already active: the joining player's entry to each
/// of them, then the batch of their entries to the joining player where there is any. A
/// message too long for a length prefix is not sent.
pub open spec fn join_sends(others: Seq<PlayerView>, p: PlayerView) -> Seq<(u32, Seq<u8>)> {
    let notice = if join_payload(p).len() < FRAME_CAPACITY {
        sends_all(others, framed(join_payload(p)))
    } else {
        seq![]
    };
    let batch = if others.len() > 0 && roster_payload(others).len() < FRAME_CAPACITY {
        seq![(p.net_id, framed(roster_payload(others)))]
    } else {
        seq![]
    };
    notice + batch
}

/// `i` is the first place in the registry that holds identity `id`.
pub open spec fn first_match(ps: Seq<PlayerView>, id: u32, i: int) -> bool {
    &&& 0 <= i < ps.len()
    &&& ps[i].net_id == id
    &&& forall|j: int| 0 <= j < i ==> #[trigger] ps[j].net_id != id
}

/// Where a lookup of `id` lands: the first player with that identity, or else the first
/// registered player.
pub open spec fn lookup(ps: Seq<PlayerView>, id: u32) -> int {
    if exists|i: int| first_match(ps, id, i) {
        choose|i: int| first_match(ps, id, i)
    } else {
        0
    }
}

/// The text of a chat line: the sender's name and the message, each behind a color marker.
pub open spec fn chat_text(name: Seq<char>, args: Seq<char>) -> Seq<char> {
    "\\c6 "@ + name + ": \\c0"@ + args
}

/// What a chat command sends: nothing unless the command is `chat` and someone is active;
/// then the chat line of the sender (found by `lookup`) to every active player, where it
/// fits in a frame.
pub open spec fn chat_sends(
    ps: Seq<PlayerView>,
    id: u32,
    command: Seq<char>,
    args: Seq<char>,
) -> Seq<(u32, Seq<u8>)> {
    if command != "chat"@ || ps.len() == 0 {
        seq![]
    } else {
        let payload = message_payload(chat_text(ps[lookup(ps, id)].username, args));
        if payload.len() < FRAME_CAPACITY {
            sends_all(ps, framed(payload))
        } else {
            seq![]
        }
    }
}

/// What an external identity service vouches for when it accepts a token.
pub struct Identity {
    pub user_id: u32,
    pub username: String,
    pub admin: bool,
    pub membership: u8,
}

/// The player admitted with identity `net_id`: in local mode named after its join order,
/// which its identity plus one counts, else as the identity service says.
pub open spec fn admitted(local: bool, net_id: u32, verified: Option<Identity>) -> PlayerView {
    if local {
        PlayerView {
            username: local_name((net_id + 1) as nat),
            user_id: 0,
            net_id,
            admin: false,
            membership: 0,
        }
    } else {
        let v = verified.unwrap();
        PlayerView {
            username: v.username@,
            user_id: v.user_id,
            net_id,
            admin: v.admin,
            membership: v.membership,
        }
    }
}

/// What an admission sends: the authentication reply to the admitted player, then the join
/// announcements.
pub open spec fn admission_sends(
    others: Seq<PlayerView>,
    p: PlayerView,
    brick_count: u32,
) -> Seq<(u32, Seq<u8>)> {
    seq![
        (
            p.net_id,
            framed(
                auth_payload(p.user_id, p.username, p.admin, p.membership, p.net_id, brick_count),
            ),
        ),
    ] + join_sends(others, p)
}

/// One admission, seen from the registry and the identity counter: one player is appended,
/// with the identity the counter held, and the counter advances.
pub open spec fn admission_step(
    roster: Seq<PlayerView>,
    counter: u32,
    next_roster: Seq<PlayerView>,
    next_counter: u32,
) -> bool {
    &&& next_counter == counter + 1
    &&& next_roster.len() == roster.len() + 1
    &&& next_roster.take(roster.len() as int) == roster
    &&& next_roster.last().net_id == counter
}

/// Whether an authentication is refused: no identity is left to allocate, or in networked
/// mode the token was not verified or the verified name is too long for a frame.
pub open spec fn refused(local: bool, last_net_id: u32, verified: Option<Identity>) -> bool {
    ||| last_net_id == u32::MAX
    ||| !local && verified is None
    ||| !local && verified.unwrap().username@.len() + 16 >= FRAME_CAPACITY
}

/// Message type of an inbound authentication request.
pub const AUTH_REQUEST_TYPE: u8 = 1;

/// Message type of an inbound command.
pub const COMMAND_TYPE: u8 = 3;

/// Message type of a heartbeat, which the server ignores.
pub const HEARTBEAT_TYPE: u8 = 18;

/// The message a received chunk carries: the payload its length prefix announces, inflated
/// where it is a zlib stream that inflates to a message.
pub open spec fn chunk_message(chunk: Seq<u8>) -> Seq<u8> {
    let w = prefix_width(chunk[0]);
    let payload = chunk.subrange(w as int, (w + decode_len(chunk)) as int);
    after_inflate(payload, zlib_inflate_chunk(payload))
}

/// Where the null-terminated text at the front of `b` ends.
pub open spec fn text_end(b: Seq<u8>) -> int {
    choose|k: int| is_text_end(b, k)
}

/// The null-terminated text at the front of `b`.
pub open spec fn first_text(b: Seq<u8>) -> Seq<char> {
    text_of(b, text_end(b))
}

/// What follows the null-terminated text at the front of `b`.
pub open spec fn after_text(b: Seq<u8>) -> Seq<u8> {
    b.skip(text_consumed(b, text_end(b)))
}

/// The command of a command message: its first text.
pub open spec fn command_of(m: Seq<u8>) -> Seq<char> {
    first_text(m.drop_first())
}

/// The arguments of a command message: its second text.
pub open spec fn args_of(m: Seq<u8>) -> Seq<char> {
    first_text(after_text(m.drop_first()))
}

/// A message that starts an authentication: of that type, on a connection not yet admitted.
pub open spec fn wants_auth(m: Seq<u8>, session: Option<u32>) -> bool {
    m.len() > 0 && m[0] == AUTH_REQUEST_TYPE && session is None
}

/// A message that carries a command: of that type, on an admitted connection.
pub open spec fn wants_command(m: Seq<u8>, session: Option<u32>) -> bool {
    m.len() > 0 && m[0] == COMMAND_TYPE && session is Some
}

/// What a connection does after one received chunk.
pub enum Step {
    /// The chunk holds no whole frame: the connection ends.
    Close,
    /// Nothing to do for this chunk.
    Ignore,
    /// Messages to send; `joined` is the identity the connection was admitted with, if this
    /// chunk admitted it.
    Send { joined: Option<u32>, out: Vec<Delivery> },
}

/// The session state: the registry of active players in join order, and the identity counter.
pub struct Game {
    pub is_local: bool,
    pub brick_count: u32,
    pub players: Vec<Player>,
    pub last_net_id: u32,
}

/// An empty session in local mode.
pub fn new() -> (r: Game)
    ensures
        r.wf(),
        r.is_local,
        r.brick_count == 0,
        r.players@.len() == 0,
        r.last_net_id == 0,
{
    Game { is_local: true, brick_count: 0, players: Vec::new(), last_net_id: 0 }
}

/// Appends a player's roster entry.
fn write_roster_entry(packet: &mut Buffer, p: &Player)
    ensures
        final(packet).data@ == old(packet).data@ + roster_entry(p@),
{
    packet.write_uint32(p.net_id);
    packet.write_string(p.username.clone());
    packet.write_uint32(p.user_id);
    packet.write_byte(if p.admin { 1 } else { 0 });
    packet.write_byte(p.membership);
    assert(packet.data@ =~= old(packet).data@ + roster_entry(p@));
}

/// Copies a packet's bytes.
fn copy_packet(buf: &Buffer) -> (r: Buffer)
    ensures
        r.data@ == buf.data@,
{
    let data = buf.data.clone();
    assert(data@ =~= buf.data@);
    Buffer { data }
}

/// Where the registry has no player with identity `id`, excluding `id` excludes nobody.
pub proof fn lemma_except_absent(ps: Seq<PlayerView>, id: u32, packet: Seq<u8>)
    requires
        forall|i: int| 0 <= i < ps.len() ==> #[trigger] ps[i].net_id != id,
    ensures
        sends_except(ps, id, packet) == sends_all(ps, packet),
    decreases ps.len(),
{
    if ps.len() > 0 {
        lemma_except_absent(ps.drop_last(), id, packet);
        assert(sends_all(ps, packet) =~= sends_all(ps.drop_last(), packet).push(
            (ps.last().net_id, packet),
        ));
    }
}

impl Game {
    /// Identities are unique, strictly increase in join order, and were all allocated.
    pub open spec fn wf(&self) -> bool {
        &&& ids_increasing(views(self.players@))
        &&& forall|i: int|
            0 <= i < self.players@.len() ==> #[trigger] self.players@[i].net_id < self.last_net_id
    }

    /// The registry's players, as the contracts see them.
    pub open spec fn roster(&self) -> Seq<PlayerView> {
        views(self.players@)
    }

    /// Returns a fresh identity and advances the counter.
    pub fn new_net_object(&mut self) -> (r: u32)
        requires
            old(self).last_net_id < u32::MAX,
        ensures
            r == old(self).last_net_id,
            final(self).last_net_id == old(self).last_net_id + 1,
            final(self).players@ == old(self).players@,
            final(self).is_local == old(self).is_local,
            final(self).brick_count == old(self).brick_count,
    {
        self.last_net_id += 1;
        self.last_net_id - 1
    }

    /// The place of the first player with identity `net_id`, if any.
    fn position(&self, net_id: u32) -> (r: Option<usize>)
        ensures
            match r {
                Some(i) => first_match(self.roster(), net_id, i as int) && i == lookup(
                    self.roster(),
                    net_id,
                ),
                None => forall|i: int|
                    0 <= i < self.players@.len() ==> #[trigger] self.roster()[i].net_id != net_id,
            },
    {
        let ghost ps = self.roster();
        let mut i: usize = 0;
        while i < self.players.len()
            invariant
                i <= self.players@.len() == ps.len(),
                ps == self.roster(),
                forall|j: int| 0 <= j < i ==> #[trigger] ps[j].net_id != net_id,
            decreases self.players@.len() - i,
        {
            assert(ps[i as int].net_id == self.players@[i as int].net_id);
            if self.players[i].net_id == net_id {
                assert(first_match(ps, net_id, i as int));
                let ghost k = lookup(ps, net_id);
                assert(first_match(ps, net_id, k));
                assert(k == i) by {
                    if k < i {
                        assert(ps[k].net_id != net_id);
                    } else if k > i {
                        assert(ps[i as int].net_id != net_id);
                    }
                }
                return Some(i);
            }
            i += 1;
        }
        None
    }

    /// Finds the player with identity `net_id`; without one, the first registered player.
    pub fn find_player(&self, net_id: u32) -> (r: &Player)
        requires
            self.players@.len() > 0,
        ensures
            r@ == self.roster()[lookup(self.roster(), net_id)],
    {
        match self.position(net_id) {
            Some(i) => &self.players[i],
            None => {
                assert(!exists|k: int| first_match(self.roster(), net_id, k));
                &self.players[0]
            },
        }
    }

    /// Removes the player with identity `net_id` when its connection closes. Returns whether
    /// such a player was registered; nobody else is told.
    pub fn remove_player(&mut self, net_id: u32) -> (r: bool)
        requires
            old(self).wf(),
        ensures
            final(self).wf(),
            r == exists|i: int|
                0 <= i < old(self).players@.len() && #[trigger] old(self).roster()[i].net_id
                    == net_id,
            r ==> final(self).roster() == old(self).roster().remove(
                lookup(old(self).roster(), net_id),
            ),
            !r ==> final(self).roster() == old(self).roster(),
            final(self).last_net_id == old(self).last_net_id,
            final(self).is_local == old(self).is_local,
            final(self).brick_count == old(self).brick_count,
    {
        let ghost before = self.roster();
        match self.position(net_id) {
            Some(i) => {
                self.players.remove(i);
                let ghost after = self.roster();
                assert(after =~= before.remove(i as int));
                assert forall|a: int, b: int| 0 <= a < b < after.len() implies #[trigger] after[a].net_id
                    < #[trigger] after[b].net_id by {
                    let a0 = if a < i { a } else { a + 1 };
                    let b0 = if b < i { b } else { b + 1 };
                    assert(after[a] == before[a0]);
                    assert(after[b] == before[b0]);
                    assert(before[a0].net_id < before[b0].net_id);
                }
                assert forall|k: int| 0 <= k < self.players@.len() implies #[trigger] self.players@[k].net_id
                    < self.last_net_id by {
                    let k0 = if k < i { k } else { k + 1 };
                    assert(self.players@[k] == old(self).players@[k0]);
                }
                true
            },
            None => false,
        }
    }

    /// Runs the authentication handshake for a new connection. In local mode the token is not
    /// checked and the player is named after its join order; in networked mode `verified` is
    /// what the identity service answered for the token. On admission the player gets a
    /// fresh identity, its authentication reply, and the join announcements.
    pub fn authenticate(&mut self, token: &mut Buffer, verified: Option<Identity>) -> (r: Option<
        Vec<Delivery>,
    >)
        requires
            old(self).wf(),
        ensures
            final(self).wf(),
            r is None <==> refused(old(self).is_local, old(self).last_net_id, verified),
            r is None ==> final(self).roster() == old(self).roster() && final(self).last_net_id
                == old(self).last_net_id,
            final(self).is_local == old(self).is_local,
            final(self).brick_count == old(self).brick_count,
            r matches Some(out) ==> {
                let p = admitted(old(self).is_local, old(self).last_net_id, verified);
                &&& admission_step(
                    old(self).roster(),
                    old(self).last_net_id,
                    final(self).roster(),
                    final(self).last_net_id,
                )
                &&& final(self).roster() == old(self).roster().push(p)
                &&& final(self).last_net_id == old(self).last_net_id + 1
                &&& deliveries(out@) == admission_sends(old(self).roster(), p, old(self).brick_count)
            },
    {
        if self.last_net_id == u32::MAX {
            return None;
        }
        let mut player = player::new();
        let packet = if self.is_local {
            player.net_id = self.new_net_object();
            match player.check_auth(token, self) {
                Some(p) => p,
                None => {
                    return None;
                },
            }
        } else {
            match verified {
                None => {
                    return None;
                },
                Some(v) => {
                    if v.username.as_str().unicode_len() >= FRAME_CAPACITY - 16 {
                        return None;
                    }
                    player.net_id = self.new_net_object();
                    player.username = v.username;
                    player.user_id = v.user_id;
                    player.admin = v.admin;
                    player.membership = v.membership;
                    player.build_auth_packet(self.brick_count)
                },
            }
        };
        let id = player.net_id;
        let ghost pv = player@;
        assert(pv == admitted(old(self).is_local, old(self).last_net_id, verified));
        let mut out: Vec<Delivery> = Vec::new();
        out.push(Delivery { to: id, packet });
        let ghost first = deliveries(out@);
        let mut join = self.add_player(player);
        out.append(&mut join);
        assert(deliveries(out@) =~= admission_sends(old(self).roster(), pv, self.brick_count));
        assert(self.roster().take(old(self).roster().len() as int) =~= old(self).roster());
        Some(out)
    }

    /// Admits an authenticated player: announces it to every other active player, sends it
    /// the roster of the others, and adds it to the registry.
    pub fn add_player(&mut self, player: Player) -> (r: Vec<Delivery>)
        requires
            old(self).wf(),
            forall|i: int|
                0 <= i < old(self).players@.len() ==> #[trigger] old(self).players@[i].net_id
                    < player.net_id,
            player.net_id < old(self).last_net_id,
        ensures
            final(self).wf(),
            final(self).roster() == old(self).roster().push(player@),
            final(self).last_net_id == old(self).last_net_id,
            final(self).is_local == old(self).is_local,
            final(self).brick_count == old(self).brick_count,
            deliveries(r@) == join_sends(old(self).roster(), player@),
    {
        let ghost others = self.roster();
        let ghost pv = player@;
        let id = player.net_id;
        let mut notice = buffer::new(None);
        notice.write_byte(ROSTER_TYPE);
        notice.write_byte(1);
        write_roster_entry(&mut notice, &player);
        assert(notice.data@ =~= join_payload(pv));
        let mut out = if notice.data.len() < FRAME_CAPACITY {
            notice.write_uint_v();
            proof {
                assert forall|i: int| 0 <= i < others.len() implies #[trigger] others[i].net_id
                    != id by {
                    assert(others[i].net_id == self.players@[i].net_id);
                }
                lemma_except_absent(others, id, notice.data@);
            }
            self.broadcast_packet_except(notice, id)
        } else {
            Vec::new()
        };
        let ghost notices = deliveries(out@);
        let count = self.players.len();
        let mut batch = buffer::new(None);
        batch.write_byte(ROSTER_TYPE);
        batch.write_byte((count % 0x100) as u8);
        let mut i: usize = 0;
        while i < count
            invariant
                count == self.players@.len() == others.len(),
                others == self.roster(),
                i <= count,
                batch.data@ == seq![ROSTER_TYPE, (count % 0x100) as u8] + roster_entries(
                    others.take(i as int),
                ),
            decreases count - i,
        {
            write_roster_entry(&mut batch, &self.players[i]);
            i += 1;
            assert(others.take(i as int).drop_last() =~= others.take(i - 1));
            assert(others.take(i as int).last() == self.players@[i - 1]@);
        }
        assert(others.take(count as int) =~= others);
        if count > 0 && batch.data.len() < FRAME_CAPACITY {
            batch.write_uint_v();
            let ghost prev = out@;
            out.push(Delivery { to: id, packet: batch });
            assert(deliveries(out@) =~= deliveries(prev).push((id, framed(roster_payload(others)))));
        }
        assert(deliveries(out@) =~= join_sends(others, pv));
        self.players.push(player);
        assert(self.roster() =~= others.push(pv));
        out
    }

    /// Handles a chat command: a command other than `chat` does nothing; `chat` sends the
    /// sender's name and the text to every active player.
    pub fn chatted(&self, net_id: u32, command: String, args: String) -> (r: Vec<Delivery>)
        ensures
            deliveries(r@) == chat_sends(self.roster(), net_id, command@, args@),
            command@ != "chat"@ ==> r@.len() == 0,
    {
        let chat = String::from_str("chat");
        if !(command == chat) || self.players.len() == 0 {
            return Vec::new();
        }
        let sender = self.find_player(net_id);
        let text = String::from_str("\\c6 ").concat(sender.username.as_str()).concat(
            ": \\c0",
        ).concat(args.as_str());
        assert(text@ =~= chat_text(self.roster()[lookup(self.roster(), net_id)].username, args@));
        if text.as_str().unicode_len() >= FRAME_CAPACITY - 2 {
            return Vec::new();
        }
        let packet = build_message_packet(text);
        self.broadcast_packet(&packet)
    }

    /// Handles one received chunk on a connection: `session` is the identity it was admitted
    /// with, if any, and `verified` what the identity service answered for its token in
    /// networked mode. A chunk without a whole frame closes the connection. An empty message,
    /// a heartbeat, and a message of any other type or not allowed in the connection's state
    /// are ignored. An authentication request admits the connection as `authenticate` does;
    /// a command is handled by `chatted`.
    pub fn handle_chunk(
        &mut self,
        session: Option<u32>,
        chunk: [u8; CHUNK_SIZE],
        verified: Option<Identity>,
    ) -> (r: Step)
        requires
            old(self).wf(),
        ensures
            final(self).wf(),
            final(self).is_local == old(self).is_local,
            final(self).brick_count == old(self).brick_count,
            r is Close <==> !frame_complete(chunk@),
            (r is Close || r is Ignore) ==> final(self).roster() == old(self).roster()
                && final(self).last_net_id == old(self).last_net_id,
            frame_complete(chunk@) && (chunk_message(chunk@).len() == 0 || chunk_message(
                chunk@,
            )[0] == HEARTBEAT_TYPE) ==> r is Ignore,
            frame_complete(chunk@) && !wants_auth(chunk_message(chunk@), session)
                && !wants_command(chunk_message(chunk@), session) ==> r is Ignore,
            frame_complete(chunk@) && wants_auth(chunk_message(chunk@), session) ==> {
                let p = admitted(old(self).is_local, old(self).last_net_id, verified);
                &&& refused(old(self).is_local, old(self).last_net_id, verified) ==> r is Ignore
                &&& !refused(old(self).is_local, old(self).last_net_id, verified) ==> (
                r matches Step::Send { joined, out } && joined == Some(old(self).last_net_id)
                    && final(self).roster() == old(self).roster().push(p)
                    && final(self).last_net_id == old(self).last_net_id + 1 && deliveries(out@)
                    == admission_sends(old(self).roster(), p, old(self).brick_count))
            },
            frame_complete(chunk@) && wants_command(chunk_message(chunk@), session) ==> (
            r matches Step::Send { joined, out } && joined is None && final(self).roster()
                == old(self).roster() && final(self).last_net_id == old(self).last_net_id
                && deliveries(out@) == chat_sends(
                old(self).roster(),
                session.unwrap(),
                command_of(chunk_message(chunk@)),
                args_of(chunk_message(chunk@)),
            )),
    {
        let mut buf = buffer::new(Some(chunk));
        if !buf.has_frame() {
            return Step::Close;
        }
        buf.read_uint_v();
        buf.zlib_uncompress();
        let ghost m = buf.data@;
        assert(m == chunk_message(chunk@));
        if buf.data.len() == 0 {
            return Step::Ignore;
        }
        let kind = buf.read_byte();
        if kind == AUTH_REQUEST_TYPE {
            if session.is_some() {
                return Step::Ignore;
            }
            let joined = self.last_net_id;
            match self.authenticate(&mut buf, verified) {
                Some(out) => Step::Send { joined: Some(joined), out },
                None => Step::Ignore,
            }
        } else if kind == COMMAND_TYPE {
            match session {
                Some(id) => {
                    let ghost rest = buf.data@;
                    let command = buf.read_string();
                    proof {
                        lemma_text_end_unique(rest, text_end(rest), command@.len() as int);
                    }
                    let ghost rest2 = buf.data@;
                    let args = buf.read_string();
                    proof {
                        lemma_text_end_unique(rest2, text_end(rest2), args@.len() as int);
                    }
                    Step::Send { joined: None, out: self.chatted(id, command, args) }
                },
                None => Step::Ignore,
            }
        } else {
            Step::Ignore
        }
    }

    /// Sends a packet to every active player.
    pub fn broadcast_packet(&self, buf: &Buffer) -> (r: Vec<Delivery>)
        ensures
            deliveries(r@) == sends_all(self.roster(), buf.data@),
    {
        let mut out: Vec<Delivery> = Vec::new();
        let mut i: usize = 0;
        while i < self.players.len()
            invariant
                i <= self.players@.len(),
                deliveries(out@) == sends_all(self.roster().take(i as int), buf.data@),
            decreases self.players@.len() - i,
        {
            let ghost prev = out@;
            out.push(Delivery { to: self.players[i].net_id, packet: copy_packet(buf) });
            assert(self.roster()[i as int].net_id == self.players@[i as int].net_id);
            assert(deliveries(out@) =~= deliveries(prev).push((self.players@[i as int].net_id, buf.data@)));
            i += 1;
            assert(self.roster().take(i as int) =~= self.roster().take(i - 1).push(
                self.roster()[i - 1],
            ));
            assert(deliveries(out@) =~= sends_all(self.roster().take(i as int), buf.data@));
        }
        assert(self.roster().take(i as int) =~= self.roster());
        out
    }

    /// Sends a packet to every active player but the one with identity `net_id`.
    pub fn broadcast_packet_except(&self, buf: Buffer, net_id: u32) -> (r: Vec<Delivery>)
        ensures
            deliveries(r@) == sends_except(self.roster(), net_id, buf.data@),
    {
        let mut out: Vec<Delivery> = Vec::new();
        let mut i: usize = 0;
        while i < self.players.len()
            invariant
                i <= self.players@.len(),
                deliveries(out@) == sends_except(self.roster().take(i as int), net_id, buf.data@),
            decreases self.players@.len() - i,
        {
            let ghost before = self.roster().take(i as int);
            let ghost prev = out@;
            let id = self.players[i].net_id;
            assert(self.roster()[i as int].net_id == id);
            if id != net_id {
                out.push(Delivery { to: id, packet: copy_packet(&buf) });
                assert(deliveries(out@) =~= deliveries(prev).push((id, buf.data@)));
            }
            i += 1;
            assert(self.roster().take(i as int).drop_last() =~= before);
            assert(deliveries(out@) =~= sends_except(self.roster().take(i as int), net_id, buf.data@));
        }
        assert(self.roster().take(i as int) =~= self.roster());
        out
    }
}

/// A join between two players: the one already active gets exactly one message, the
/// joining player's roster entry, and the joining player gets exactly one batch, holding the
/// active player's entry and no other.
pub proof fn lemma_join_fan_out(a: PlayerView, b: PlayerView)
    requires
        a.username.len() + 13 < FRAME_CAPACITY,
        b.username.len() + 13 < FRAME_CAPACITY,
    ensures
        join_sends(seq![a], b) == seq![
            (a.net_id, framed(seq![ROSTER_TYPE, 1u8] + roster_entry(b))),
            (b.net_id, framed(seq![ROSTER_TYPE, 1u8] + roster_entry(a))),
        ],
{
    let others = seq![a];
    assert(others.drop_last() =~= Seq::<PlayerView>::empty());
    assert(roster_entries(others.drop_last()) =~= Seq::<u8>::empty());
    assert(others.last() == a);
    assert(roster_entries(others) =~= roster_entry(a));
    assert(roster_payload(others) =~= seq![ROSTER_TYPE, 1u8] + roster_entry(a));
    assert(sends_all(others, framed(join_payload(b))) =~= seq![
        (a.net_id, framed(join_payload(b))),
    ]);
    assert(join_sends(others, b) =~= seq![
        (a.net_id, framed(seq![ROSTER_TYPE, 1u8] + roster_entry(b))),
        (b.net_id, framed(seq![ROSTER_TYPE, 1u8] + roster_entry(a))),
    ]);
}

/// After the `k`-th of a run of admissions from an empty registry and a zero counter, the
/// registry holds `k` players whose identities are their places, and the counter is `k`.
proof fn lemma_admissions_prefix(rosters: Seq<Seq<PlayerView>>, counters: Seq<u32>, k: int)
    requires
        rosters.len() == counters.len(),
        rosters[0].len() == 0,
        counters[0] == 0,
        forall|j: int|
            0 <= j < rosters.len() - 1 ==> #[trigger] admission_step(
                rosters[j],
                counters[j],
                rosters[j + 1],
                counters[j + 1],
            ),
        0 <= k < rosters.len(),
    ensures
        rosters[k].len() == k,
        counters[k] == k,
        forall|i: int| 0 <= i < k ==> #[trigger] rosters[k][i].net_id == i,
    decreases k,
{
    if k > 0 {
        lemma_admissions_prefix(rosters, counters, k - 1);
        assert(admission_step(rosters[k - 1], counters[k - 1], rosters[k], counters[k]));
        assert forall|i: int| 0 <= i < k implies #[trigger] rosters[k][i].net_id == i by {
            if i < k - 1 {
                assert(rosters[k].take(k - 1)[i] == rosters[k][i]);
            }
        }
    }
}

/// After `n` admissions in sequence, each as `authenticate` performs it, starting from an
/// empty registry and a zero counter: the registry holds `n` players, their identities are
/// distinct and strictly increasing (the `i`-th has identity `i`), and the counter is `n`.
pub proof fn lemma_sequential_admissions(rosters: Seq<Seq<PlayerView>>, counters: Seq<u32>)
    requires
        rosters.len() == counters.len(),
        rosters.len() >= 1,
        rosters[0].len() == 0,
        counters[0] == 0,
        forall|j: int|
            0 <= j < rosters.len() - 1 ==> #[trigger] admission_step(
                rosters[j],
                counters[j],
                rosters[j + 1],
                counters[j + 1],
            ),
    ensures
        ({
            let n = rosters.len() - 1;
            &&& rosters[n].len() == n
            &&& counters[n] == n
            &&& forall|i: int| 0 <= i < n ==> #[trigger] rosters[n][i].net_id == i
            &&& ids_increasing(rosters[n])
        }),
{
    let n = rosters.len() - 1;
    lemma_admissions_prefix(rosters, counters, n);
    assert forall|i: int, j: int| 0 <= i < j < rosters[n].len() implies #[trigger] rosters[n][i].net_id
        < #[trigger] rosters[n][j].net_id by {
        assert(rosters[n][i].net_id == i);
        assert(rosters[n][j].net_id == j);
    }
}

/// Identities in a well-formed registry are pairwise distinct.
pub proof fn lemma_ids_distinct(g: &Game)
    requires
        g.wf(),
    ensures
        forall|i: int, j: int|
            0 <= i < g.players@.len() && 0 <= j < g.players@.len() && i != j
                ==> #[trigger] g.roster()[i].net_id != #[trigger] g.roster()[j].net_id,
{
    assert forall|i: int, j: int|
        0 <= i < g.players@.len() && 0 <= j < g.players@.len() && i != j
            implies #[trigger] g.roster()[i].net_id != #[trigger] g.roster()[j].net_id by {
        if i < j {
            assert(g.roster()[i].net_id < g.roster()[j].net_id);
        } else {
            assert(g.roster()[j].net_id < g.roster()[i].net_id);
        }
    }
}

/// Excluding `id` reaches exactly the registered players whose identity is not `id`: every
/// message goes to such a player and carries the packet, and each such player gets one.
pub proof fn lemma_except_members(ps: Seq<PlayerView>, id: u32, packet: Seq<u8>)
    ensures
        forall|k: int|
            0 <= k < sends_except(ps, id, packet).len() ==> {
                let s = #[trigger] sends_except(ps, id, packet)[k];
                &&& s.1 == packet
                &&& s.0 != id
                &&& exists|i: int| 0 <= i < ps.len() && #[trigger] ps[i].net_id == s.0
            },
        forall|i: int|
            0 <= i < ps.len() && #[trigger] ps[i].net_id != id ==> exists|k: int|
                0 <= k < sends_except(ps, id, packet).len() && #[trigger] sends_except(
                    ps,
                    id,
                    packet,
                )[k].0 == ps[i].net_id,
    decreases ps.len(),
{
    if ps.len() > 0 {
        let init = ps.drop_last();
        lemma_except_members(init, id, packet);
        let prev = sends_except(init, id, packet);
        let cur = sends_except(ps, id, packet);
        assert forall|k: int| 0 <= k < cur.len() implies {
            let s = #[trigger] cur[k];
            &&& s.1 == packet
            &&& s.0 != id
            &&& exists|i: int| 0 <= i < ps.len() && #[trigger] ps[i].net_id == s.0
        } by {
            if k < prev.len() {
                assert(cur[k] == prev[k]);
                let i = choose|i: int| 0 <= i < init.len() && #[trigger] init[i].net_id == prev[k].0;
                assert(ps[i] == init[i]);
            } else {
                assert(ps[ps.len() - 1].net_id == cur[k].0);
            }
        }
        assert forall|i: int| 0 <= i < ps.len() && #[trigger] ps[i].net_id != id implies exists|k: int|
            0 <= k < cur.len() && #[trigger] cur[k].0 == ps[i].net_id by {
            if i < init.len() {
                assert(init[i] == ps[i]);
                let k = choose|k: int| 0 <= k < prev.len() && #[trigger] prev[k].0 == init[i].net_id;
                assert(cur[k] == prev[k]);
            } else {
                assert(cur[prev.len() as int].0 == ps[i].net_id);
            }
        }
    }
}

} // verus!
