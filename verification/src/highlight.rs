//! A single-pass detector of moments of interest: bookmarks that a player
//! set in chat, and hits on players who are in the air after an explosive
//! jump.

use bitbuffer::BitError;
use std::collections::HashMap;
use tf_demo_parser::demo::message::Message;
use tf_demo_parser::demo::packet::stringtable::StringTableEntry;
use vstd::prelude::*;

use crate::codec::{
    chat_in, chat_signal, entry_parts, hurt_in, jump_end_in, jump_ended_by, jump_start_in,
    jump_started_by, parse_user_entry, player_hurt_fields, spawn_in, spawned_player,
    user_entry_of, user_entry_parts,
};
use crate::error::CutError;
use crate::sorted_map::SortedMap;

verus! {

/// What made a highlight.
#[derive(Clone, Copy, Debug, PartialEq, Eq, Structural)]
pub enum HighlightSource {
    /// A bookmark set in chat.
    Prec,
    /// Damage dealt to a player in the middle of an explosive jump.
    AirShot,
}

/// A moment of interest.
#[derive(Clone, Copy, Debug, PartialEq, Eq, Structural)]
pub struct Highlight {
    pub tick: u32,
    /// The player hit, or the client that set the bookmark.
    pub user: u32,
    pub source: HighlightSource,
}

/// What the detector reads of a decoded message.
#[derive(Debug)]
pub enum GameSignal {
    PlayerHurt { user_id: u16, attacker: u16, damage_amount: u16 },
    /// A rocket jump or a sticky jump began.
    ExplosiveJump { user_id: u16 },
    /// A rocket jump or a sticky jump ended.
    ExplosiveLanded { user_id: u16 },
    PlayerSpawn { user_id: u16 },
    Chat { client: u32, text: String },
    Other,
}

/// What the detector reads of a message of the codec: the codec is asked
/// what the message holds of each kind that the detector knows, and
/// `signal_of` makes the signal of the answers.
pub fn read_signal<'a>(message: &Message<'a>) -> (r: GameSignal)
    ensures
        r == signal_from(
            hurt_in(*message),
            jump_start_in(*message),
            jump_end_in(*message),
            spawn_in(*message),
            chat_in(*message),
        ),
{
    signal_of(
        player_hurt_fields(message),
        jump_started_by(message),
        jump_ended_by(message),
        spawned_player(message),
        chat_signal(message),
    )
}

/// The signal that the parts of a message make: the first of a hit, the
/// start of a jump, the end of a jump, a spawn and a chat line that is there,
/// and `Other` where none is.
pub open spec fn signal_from(
    hurt: Option<(u16, u16, u16)>,
    started: Option<u16>,
    ended: Option<u16>,
    spawned: Option<u16>,
    chat: Option<(u32, String)>,
) -> GameSignal {
    if let Some(hit) = hurt {
        GameSignal::PlayerHurt { user_id: hit.0, attacker: hit.1, damage_amount: hit.2 }
    } else if let Some(user_id) = started {
        GameSignal::ExplosiveJump { user_id }
    } else if let Some(user_id) = ended {
        GameSignal::ExplosiveLanded { user_id }
    } else if let Some(user_id) = spawned {
        GameSignal::PlayerSpawn { user_id }
    } else if let Some(line) = chat {
        GameSignal::Chat { client: line.0, text: line.1 }
    } else {
        GameSignal::Other
    }
}

/// Makes the signal of what the codec found in a message: the player hit
/// with the attacker and the damage, the player who began an explosive jump,
/// the player who ended one, the player who spawned, and the client and text
/// of a chat line.
pub fn signal_of(
    hurt: Option<(u16, u16, u16)>,
    started: Option<u16>,
    ended: Option<u16>,
    spawned: Option<u16>,
    chat: Option<(u32, String)>,
) -> (r: GameSignal)
    ensures
        r == signal_from(hurt, started, ended, spawned, chat),
{
    if let Some((user_id, attacker, damage_amount)) = hurt {
        GameSignal::PlayerHurt { user_id, attacker, damage_amount }
    } else if let Some(user_id) = started {
        GameSignal::ExplosiveJump { user_id }
    } else if let Some(user_id) = ended {
        GameSignal::ExplosiveLanded { user_id }
    } else if let Some(user_id) = spawned {
        GameSignal::PlayerSpawn { user_id }
    } else if let Some((client, text)) = chat {
        GameSignal::Chat { client, text }
    } else {
        GameSignal::Other
    }
}

/// A player as the user-info table announces it.
#[derive(Debug)]
pub struct UserRecord {
    pub user_id: u16,
    pub entity_id: u32,
    pub name: String,
    pub steam_id: String,
}

/// Smallest damage that makes a hit on a jumping player a highlight, exclusive.
pub const AIRSHOT_DAMAGE: u16 = 50;

/// The chat line that sets a bookmark.
pub open spec fn bookmark_text() -> Seq<char> {
    "[P-REC] Bookmark."@
}

/// Mathematical value of a [`HighlightAnalyser`].
pub struct AnalyserView {
    pub highlights: Seq<Highlight>,
    /// The players whose last jump event was the start of an explosive jump
    /// map to `true`.
    pub jumping: Map<u16, bool>,
    /// For each announced user identifier the entity that plays it.
    pub users: Map<u16, u32>,
}

/// Whether `user` is in the middle of an explosive jump.
pub open spec fn is_jumping(jumping: Map<u16, bool>, user: u16) -> bool {
    jumping.contains_key(user) && jumping[user]
}

/// The detector after one message at `tick`.
pub open spec fn analyse(s: AnalyserView, signal: GameSignal, tick: u32) -> AnalyserView {
    match signal {
        GameSignal::PlayerHurt { user_id, attacker, damage_amount } => if attacker != user_id
            && is_jumping(s.jumping, user_id) && damage_amount > AIRSHOT_DAMAGE {
            AnalyserView {
                highlights: s.highlights.push(
                    Highlight { tick, user: user_id as u32, source: HighlightSource::AirShot },
                ),
                ..s
            }
        } else {
            s
        },
        GameSignal::ExplosiveJump { user_id } => AnalyserView {
            jumping: s.jumping.insert(user_id, true),
            ..s
        },
        GameSignal::ExplosiveLanded { user_id } => AnalyserView {
            jumping: s.jumping.insert(user_id, false),
            ..s
        },
        GameSignal::PlayerSpawn { user_id } => AnalyserView {
            jumping: s.jumping.insert(user_id, false),
            ..s
        },
        GameSignal::Chat { client, text } => if text@ == bookmark_text() {
            AnalyserView {
                highlights: s.highlights.push(
                    Highlight { tick, user: client, source: HighlightSource::Prec },
                ),
                ..s
            }
        } else {
            s
        },
        GameSignal::Other => s,
    }
}

/// Collects highlights from the messages of a capture, in order.
pub struct HighlightAnalyser {
    highlights: Vec<Highlight>,
    explosive_jumping: HashMap<u16, bool>,
    users: SortedMap<UserRecord>,
}

impl View for HighlightAnalyser {
    type V = AnalyserView;

    closed spec fn view(&self) -> AnalyserView {
        AnalyserView {
            highlights: self.highlights@,
            jumping: self.explosive_jumping@,
            users: Map::new(
                |id: u16| self.users@.contains_key(id as u32),
                |id: u16| self.users@[id as u32].entity_id,
            ),
        }
    }
}

impl Default for HighlightAnalyser {
    fn default() -> (r: HighlightAnalyser)
        ensures
            r.wf(),
            r@.highlights == Seq::<Highlight>::empty(),
            r@.jumping == Map::<u16, bool>::empty(),
            r@.users == Map::<u16, u32>::empty(),
    {
        HighlightAnalyser::new()
    }
}

impl HighlightAnalyser {
    /// Users are stored once each, under their own identifier.
    pub closed spec fn wf(&self) -> bool {
        &&& self.users.wf()
        &&& forall|k: u32| self.users@.contains_key(k) ==> k <= 0xffff
    }

    /// A detector that has seen nothing.
    pub fn new() -> (r: HighlightAnalyser)
        ensures
            r.wf(),
            r@.highlights == Seq::<Highlight>::empty(),
            r@.jumping == Map::<u16, bool>::empty(),
            r@.users == Map::<u16, u32>::empty(),
    {
        let r = HighlightAnalyser {
            highlights: Vec::new(),
            explosive_jumping: HashMap::new(),
            users: SortedMap::new(),
        };
        assert(r@.users =~= Map::<u16, u32>::empty());
        r
    }

    fn is_explosive_jumping(&self, user: u16) -> (r: bool)
        ensures
            r == is_jumping(self@.jumping, user),
    {
        broadcast use vstd::std_specs::hash::group_hash_axioms;

        match self.explosive_jumping.get(&user) {
            Some(jumping) => *jumping,
            None => false,
        }
    }

    /// Feeds one message, decoded at `tick`, to the detector.
    pub fn handle_message(&mut self, signal: &GameSignal, tick: u32)
        requires
            old(self).wf(),
        ensures
            final(self).wf(),
            final(self)@ == analyse(old(self)@, *signal, tick),
    {
        broadcast use vstd::std_specs::hash::group_hash_axioms;

        match signal {
            GameSignal::PlayerHurt { user_id, attacker, damage_amount } => {
                if *attacker != *user_id {
                    if self.is_explosive_jumping(*user_id) && *damage_amount > AIRSHOT_DAMAGE {
                        self.highlights.push(
                            Highlight {
                                tick,
                                user: *user_id as u32,
                                source: HighlightSource::AirShot,
                            },
                        );
                    }
                }
            },
            GameSignal::ExplosiveJump { user_id } => {
                self.explosive_jumping.insert(*user_id, true);
            },
            GameSignal::ExplosiveLanded { user_id } => {
                self.explosive_jumping.insert(*user_id, false);
            },
            GameSignal::PlayerSpawn { user_id } => {
                self.explosive_jumping.insert(*user_id, false);
            },
            GameSignal::Chat { client, text } => {
                let marker = "[P-REC] Bookmark.".to_owned();
                if *text == marker {
                    self.highlights.push(
                        Highlight { tick, user: *client, source: HighlightSource::Prec },
                    );
                }
            },
            GameSignal::Other => {},
        }
    }

    /// Notes an announced player: a known user identifier takes the new
    /// entity, an unknown one is added.
    pub fn handle_user(&mut self, record: UserRecord)
        requires
            old(self).wf(),
        ensures
            final(self).wf(),
            final(self)@ == (AnalyserView {
                users: old(self)@.users.insert(record.user_id, record.entity_id),
                ..old(self)@
            }),
    {
        let key = record.user_id as u32;
        let ghost before = self.users@;
        match self.users.remove(key) {
            Some(known) => {
                let merged = UserRecord { entity_id: record.entity_id, ..known };
                self.users.insert(key, merged);
            },
            None => {
                self.users.insert(key, record);
            },
        }
        proof {
            let want = old(self)@.users.insert(record.user_id, record.entity_id);
            assert forall|id: u16| self@.users.contains_key(id) <==> want.contains_key(id) by {
                if id as u32 == key {
                    assert(id == record.user_id);
                }
            }
            assert(self@.users =~= want);
        }
    }

    /// Reads a user-info entry and notes the player that it announces, if it
    /// announces one. An entry that cannot be read is an error and changes
    /// nothing, and so is one whose text names no entity.
    pub fn parse_user_info<'a>(&mut self, index: u16, entry: &StringTableEntry<'a>) -> (r: Result<
        (),
        CutError,
    >)
        requires
            old(self).wf(),
        ensures
            final(self).wf(),
            match after_user_entry(old(self)@, index, *entry) {
                Some(after) => r is Ok && final(self)@ == after,
                None => r == Err::<(), CutError>(CutError::Decode) && final(self)@ == old(self)@,
            },
    {
        let (number, has_data) = user_entry_parts(entry);
        if names_no_entity(number, has_data) {
            return Err(CutError::Decode);
        }
        self.note_user_entry(parse_user_entry(index, entry))
    }

    /// Takes in what the codec made of a user-info entry: a player is noted,
    /// an entry that announces none changes nothing, and an entry that could
    /// not be read is an error and changes nothing.
    pub fn note_user_entry(&mut self, parsed: Result<Option<UserRecord>, BitError>) -> (r: Result<
        (),
        CutError,
    >)
        requires
            old(self).wf(),
        ensures
            final(self).wf(),
            match parsed {
                Ok(Some(record)) => r is Ok && final(self)@ == (AnalyserView {
                    users: old(self)@.users.insert(record.user_id, record.entity_id),
                    ..old(self)@
                }),
                Ok(None) => r is Ok && final(self)@ == old(self)@,
                Err(_) => r == Err::<(), CutError>(CutError::Decode)
                    && final(self)@ == old(self)@,
            },
    {
        match parsed {
            Ok(Some(record)) => {
                self.handle_user(record);
                Ok(())
            },
            Ok(None) => Ok(()),
            Err(_) => Err(CutError::Decode),
        }
    }

    /// Whether a string-table entry of table `table` is for this detector.
    pub fn is_user_table(table: &str) -> (r: bool)
        ensures
            r == (table@ == "userinfo"@),
    {
        let name = table.to_owned();
        let wanted = "userinfo".to_owned();
        name == wanted
    }

    /// Feeds one string-table entry to the detector. Only the user-info
    /// table is read, and an entry of it that cannot be read is passed over.
    pub fn handle_string_entry<'a>(
        &mut self,
        table: &str,
        index: usize,
        entry: &StringTableEntry<'a>,
    )
        requires
            old(self).wf(),
        ensures
            final(self).wf(),
            final(self)@ == if table@ == "userinfo"@ {
                match after_user_entry(old(self)@, (index % 0x10000) as u16, *entry) {
                    Some(after) => after,
                    None => old(self)@,
                }
            } else {
                old(self)@
            },
    {
        if Self::is_user_table(table) {
            let slot = (index % 0x10000) as u16;
            let _ = self.parse_user_info(slot, entry);
        }
    }

    /// The highlights found, in the order of their messages.
    pub fn into_output(self) -> (r: Vec<Highlight>)
        ensures
            r@ == self@.highlights,
    {
        self.highlights
    }
}

/// The detector after a user-info entry at the given index: the player
/// that the codec finds in the entry is noted, and an entry that announces
/// none changes nothing. There is none for an entry that the codec cannot
/// read, and for one whose text names no entity.
pub open spec fn after_user_entry(
    before: AnalyserView,
    index: u16,
    entry: StringTableEntry<'static>,
) -> Option<AnalyserView> {
    if no_entity(entry_parts(entry).0, entry_parts(entry).1) {
        None
    } else {
        match user_entry_of(index, entry) {
            Some(Some(record)) => Some(
                AnalyserView {
                    users: before.users.insert(record.user_id, record.entity_id),
                    ..before
                },
            ),
            Some(None) => Some(before),
            None => None,
        }
    }
}

/// Whether a user-info entry names no entity: the entity of a player is the
/// number in the entry's text and one, so the largest number names none.
/// The text is read only where the entry has extra data.
pub open spec fn no_entity(number: Option<u32>, has_data: bool) -> bool {
    has_data && number == Some(u32::MAX)
}

/// Whether a user-info entry with this number in its text, with or without
/// extra data, names no entity.
pub fn names_no_entity(number: Option<u32>, has_data: bool) -> (r: bool)
    ensures
        r == no_entity(number, has_data),
{
    match number {
        Some(n) => has_data && n == u32::MAX,
        None => false,
    }
}

} // verus!
