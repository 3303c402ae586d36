use crate::buffer::{push_char, Buffer, FRAME_CAPACITY};
use crate::game::Game;
use crate::packet_builder::{auth_payload, build_auth_packet, framed};
use vstd::prelude::*;
use vstd::string::StringExecFns;

verus! {

/// What the contracts see of a player: its public identity fields.
pub struct PlayerView {
    pub username: Seq<char>,
    pub user_id: u32,
    pub net_id: u32,
    pub admin: bool,
    pub membership: u8,
}

/// A connected player. The transport that reaches it is kept by the connection that owns it.
pub struct Player {
    pub username: String,
    pub user_id: u32,
    pub net_id: u32,
    pub admin: bool,
    pub membership: u8,
}

impl View for Player {
    type V = PlayerView;

    open spec fn view(&self) -> PlayerView {
        PlayerView {
            username: self.username@,
            user_id: self.user_id,
            net_id: self.net_id,
            admin: self.admin,
            membership: self.membership,
        }
    }
}

/// The character of a decimal digit.
pub open spec fn digit_char(d: nat) -> char {
    (d + 48) as char
}

/// The decimal digits of `n`, most significant first, without leading zeros.
pub open spec fn decimal_of(n: nat) -> Seq<char>
    decreases n,
{
    if n < 10 {
        seq![digit_char(n)]
    } else {
        decimal_of(n / 10).push(digit_char(n % 10))
    }
}

/// Ten to the power `k`.
pub open spec fn pow10(k: nat) -> nat
    decreases k,
{
    if k == 0 {
        1
    } else {
        10 * pow10((k - 1) as nat)
    }
}

/// A number below ten to the power `k` has at most `k` digits.
pub proof fn lemma_decimal_len(n: nat, k: nat)
    requires
        k >= 1,
        n < pow10(k),
    ensures
        decimal_of(n).len() <= k,
    decreases n,
{
    if n >= 10 {
        assert(k >= 2) by {
            if k == 1 {
                assert(pow10(1) == 10) by {
                    reveal_with_fuel(pow10, 2);
                }
            }
        }
        let k1 = (k - 1) as nat;
        assert(pow10(k) == 10 * pow10(k1));
        assert(n / 10 < pow10(k1)) by (nonlinear_arith)
            requires
                n < 10 * pow10(k1),
        ;
        lemma_decimal_len(n / 10, k1);
    }
}

/// The display name given to the player admitted `n`-th in local mode.
pub open spec fn local_name(n: nat) -> Seq<char> {
    "Player "@ + decimal_of(n)
}

/// The decimal digits of `n`.
fn decimal(n: u64) -> (r: String)
    ensures
        r@ == decimal_of(n as nat),
    decreases n,
{
    let digit = ((n % 10) as u8 + 48) as char;
    if n < 10 {
        let mut s = String::new();
        push_char(&mut s, digit);
        assert(s@ =~= decimal_of(n as nat));
        s
    } else {
        let mut s = decimal(n / 10);
        push_char(&mut s, digit);
        s
    }
}

/// A player that has not yet authenticated.
pub fn new() -> (r: Player)
    ensures
        r@.username == "Player"@,
        r.user_id == 0,
        r.net_id == 0,
        !r.admin,
        r.membership == 0,
{
    Player {
        username: String::from_str("Player"),
        user_id: 0,
        net_id: 0,
        admin: false,
        membership: 0,
    }
}

impl Player {
    /// The framed authentication reply for this player.
    pub fn build_auth_packet(&self, brick_count: u32) -> (packet: Buffer)
        requires
            self.username@.len() + 16 < FRAME_CAPACITY,
        ensures
            packet.data@ == framed(
                auth_payload(
                    self.user_id,
                    self.username@,
                    self.admin,
                    self.membership,
                    self.net_id,
                    brick_count,
                ),
            ),
    {
        build_auth_packet(
            self.user_id,
            self.username.clone(),
            self.admin,
            self.membership,
            self.net_id,
            brick_count,
        )
    }

    /// Runs the local part of the authentication handshake, once the player's identity is
    /// allocated. Identities are allocated one per admission from zero, so in local mode the
    /// player is named after its place in the join order, its identity plus one, and gets its
    /// authentication reply; in networked mode the token must be verified elsewhere, and
    /// nothing happens here.
    pub fn check_auth(&mut self, _buf: &mut Buffer, game: &Game) -> (r: Option<Buffer>)
        ensures
            game.is_local ==> {
                &&& final(self)@ == (PlayerView {
                    username: local_name((old(self).net_id + 1) as nat),
                    ..old(self)@
                })
                &&& r matches Some(packet) && packet.data@ == framed(
                    auth_payload(
                        old(self).user_id,
                        local_name((old(self).net_id + 1) as nat),
                        old(self).admin,
                        old(self).membership,
                        old(self).net_id,
                        game.brick_count,
                    ),
                )
            },
            !game.is_local ==> r is None && final(self)@ == old(self)@,
    {
        if game.is_local {
            proof {
                reveal_with_fuel(pow10, 11);
                lemma_decimal_len((self.net_id + 1) as nat, 10);
                reveal_strlit("Player ");
            }
            let n = self.net_id as u64 + 1;
            let digits = decimal(n);
            let name = String::from_str("Player ").concat(digits.as_str());
            self.username = name;
            Some(self.build_auth_packet(game.brick_count))
        } else {
            None
        }
    }
}

} // verus!
