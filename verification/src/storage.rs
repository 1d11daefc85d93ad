//! The melody catalog and the game sessions, both kept in the shared
//! key-value store under disjoint key namespaces.
//!
//! The catalog maintains an id index so a melody can be drawn by position;
//! the session side offers `take_answer`, the check-and-clear step that
//! reads and deletes a game as one operation, so an answer is judged at
//! most once.

use vstd::prelude::*;
use crate::codec::{
    decode_game, decode_melody, encode_game, encode_melody, game_bytes, game_fits, game_key,
    game_key_vec, lemma_game_key_injective, lemma_melody_key_injective, lemma_namespaces_disjoint,
    melody_bytes, melody_fits, melody_key, melody_key_vec, str_eq, str_fits,
};
use crate::kv::KvStore;
use crate::{answers_distinct, Game, GameModel, Melody, MelodyModel, QuizError};

verus! {

/// The deterministic step of the seedable draw (an xorshift step).
pub open spec fn next_seed(s: u64) -> u64 {
    let a = s ^ (s << 13);
    let c = a ^ (a >> 7);
    c ^ (c << 17)
}

/// The position of `id` in an id index.
pub open spec fn id_index(s: Seq<u64>, id: u64) -> int {
    choose|i: int| 0 <= i < s.len() && s[i] == id
}

/// Both repositories over one store, plus the draw seed.
pub struct Storage {
    kv: KvStore,
    item_ids: Vec<u64>,
    seed: u64,
    items_m: Ghost<Map<u64, MelodyModel>>,
    sessions_m: Ghost<Map<i64, Seq<char>>>,
}

impl Storage {
    /// The catalog: each stored melody, by id.
    pub closed spec fn items(&self) -> Map<u64, MelodyModel> {
        self.items_m@
    }

    /// The sessions: for each chat with a game running, the expected answer.
    pub closed spec fn sessions(&self) -> Map<i64, Seq<char>> {
        self.sessions_m@
    }

    /// The id index the draw works over.
    pub closed spec fn catalog_ids(&self) -> Seq<u64> {
        self.item_ids@
    }

    /// The state of the seedable draw.
    pub closed spec fn rng_state(&self) -> u64 {
        self.seed
    }

    /// The storage invariant: the store holds exactly the encodings of the
    /// two models under their namespaced keys, and the id index lists
    /// exactly the catalog's ids, once each.
    pub closed spec fn wf(&self) -> bool {
        &&& self.kv.wf()
        &&& forall|id: u64| #[trigger] self.items_m@.contains_key(id) ==> {
            &&& melody_fits(self.items_m@[id])
            &&& answers_distinct(self.items_m@[id])
            &&& self.items_m@[id].id == id
            &&& self.kv@.contains_key(melody_key(id))
            &&& self.kv@[melody_key(id)] == melody_bytes(self.items_m@[id])
        }
        &&& forall|id: u64|
            self.kv@.contains_key(#[trigger] melody_key(id)) ==> self.items_m@.contains_key(id)
        &&& forall|c: i64| #[trigger] self.sessions_m@.contains_key(c) ==> {
            &&& str_fits(self.sessions_m@[c])
            &&& self.kv@.contains_key(game_key(c))
            &&& self.kv@[game_key(c)] == game_bytes(
                GameModel { chat_id: c, right_answer: self.sessions_m@[c] },
            )
        }
        &&& forall|c: i64|
            self.kv@.contains_key(#[trigger] game_key(c)) ==> self.sessions_m@.contains_key(c)
        &&& forall|i: int|
            0 <= i < self.item_ids@.len() ==> self.items_m@.contains_key(
                #[trigger] self.item_ids@[i],
            )
        &&& forall|id: u64| #[trigger]
            self.items_m@.contains_key(id) ==> self.item_ids@.contains(id)
        &&& forall|i: int, j: int|
            0 <= i < j < self.item_ids@.len() ==> self.item_ids@[i] != self.item_ids@[j]
    }

    /// An empty storage with the given draw seed.
    pub fn new(seed: u64) -> (r: Storage)
        ensures
            r.wf(),
            r.items() == Map::<u64, MelodyModel>::empty(),
            r.sessions() == Map::<i64, Seq<char>>::empty(),
            r.catalog_ids() == Seq::<u64>::empty(),
            r.rng_state() == seed,
    {
        Storage {
            kv: KvStore::new(),
            item_ids: Vec::new(),
            seed,
            items_m: Ghost(Map::empty()),
            sessions_m: Ghost(Map::empty()),
        }
    }

    /// Adds a melody to the catalog, overwriting any melody of the same id.
    pub fn store_melody(&mut self, melody: Melody) -> (r: Result<(), QuizError>)
        requires
            old(self).wf(),
        ensures
            final(self).wf(),
            final(self).sessions() == old(self).sessions(),
            final(self).rng_state() == old(self).rng_state(),
            answers_distinct(melody@) ==> {
                &&& r is Ok
                &&& final(self).items() == old(self).items().insert(melody.id, melody@)
                &&& (old(self).items().contains_key(melody.id) ==> final(self).catalog_ids()
                    == old(self).catalog_ids())
                &&& (!old(self).items().contains_key(melody.id) ==> final(self).catalog_ids()
                    == old(self).catalog_ids().push(melody.id))
            },
            !answers_distinct(melody@) ==> {
                &&& r == Result::<(), QuizError>::Err(QuizError::InvalidItem)
                &&& final(self).items() == old(self).items()
                &&& final(self).catalog_ids() == old(self).catalog_ids()
            },
    {
        proof {
            assert(melody@.wrong_answers[0] == melody.wrong_answers@[0]@);
            assert(melody@.wrong_answers[1] == melody.wrong_answers@[1]@);
            assert(melody@.wrong_answers[2] == melody.wrong_answers@[2]@);
        }
        let valid = !str_eq(melody.right_answer.as_str(), melody.wrong_answers[0].as_str())
            && !str_eq(melody.right_answer.as_str(), melody.wrong_answers[1].as_str())
            && !str_eq(melody.right_answer.as_str(), melody.wrong_answers[2].as_str())
            && !str_eq(melody.wrong_answers[0].as_str(), melody.wrong_answers[1].as_str())
            && !str_eq(melody.wrong_answers[0].as_str(), melody.wrong_answers[2].as_str())
            && !str_eq(melody.wrong_answers[1].as_str(), melody.wrong_answers[2].as_str());
        if !valid {
            assert(!answers_distinct(melody@));
            return Err(QuizError::InvalidItem);
        }
        assert(answers_distinct(melody@));
        let ghost kv0 = self.kv@;
        let ghost items0 = self.items_m@;
        let ghost sessions0 = self.sessions_m@;
        let ghost ids0 = self.item_ids@;
        let id = melody.id;
        let bytes = encode_melody(&melody);
        let key = melody_key_vec(id);
        self.kv.put(key, bytes);
        let present = contains_id(&self.item_ids, id);
        if !present {
            self.item_ids.push(id);
        }
        proof {
            self.items_m@ = items0.insert(id, melody@);
            let kv1 = self.kv@;
            let items1 = self.items_m@;
            assert forall|id2: u64| #[trigger] items1.contains_key(id2) implies {
                &&& melody_fits(items1[id2])
                &&& answers_distinct(items1[id2])
                &&& items1[id2].id == id2
                &&& kv1.contains_key(melody_key(id2))
                &&& kv1[melody_key(id2)] == melody_bytes(items1[id2])
            } by {
                if id2 != id {
                    if melody_key(id2) == melody_key(id) {
                        lemma_melody_key_injective(id2, id);
                    }
                }
            }
            assert forall|id2: u64|
                kv1.contains_key(#[trigger] melody_key(id2)) implies items1.contains_key(
                id2,
            ) by {
                if melody_key(id2) == melody_key(id) {
                    lemma_melody_key_injective(id2, id);
                }
            }
            assert forall|c: i64| #[trigger] sessions0.contains_key(c) implies {
                &&& str_fits(sessions0[c])
                &&& kv1.contains_key(game_key(c))
                &&& kv1[game_key(c)] == game_bytes(
                    GameModel { chat_id: c, right_answer: sessions0[c] },
                )
            } by {
                lemma_namespaces_disjoint(id, c);
            }
            assert forall|c: i64|
                kv1.contains_key(#[trigger] game_key(c)) implies sessions0.contains_key(c) by {
                lemma_namespaces_disjoint(id, c);
            }
            if !ids0.contains(id) {
                assert(self.item_ids@ == ids0.push(id));
                assert(forall|i: int| 0 <= i < ids0.len() ==> ids0[i] == self.item_ids@[i]);
            }
            assert forall|id2: u64| #[trigger] items1.contains_key(id2) implies
                self.item_ids@.contains(id2) by {
                if id2 == id {
                    if ids0.contains(id) {
                        let i = choose|i: int| 0 <= i < ids0.len() && ids0[i] == id;
                        assert(self.item_ids@[i] == id);
                    } else {
                        assert(self.item_ids@[ids0.len() as int] == id);
                    }
                } else {
                    let i = choose|i: int| 0 <= i < ids0.len() && ids0[i] == id2;
                    assert(self.item_ids@[i] == id2);
                }
            }
        }
        Ok(())
    }

    /// Reads a melody from the catalog; absent ids read as `None`.
    pub fn load_melody(&self, melody_id: u64) -> (r: Result<Option<Melody>, QuizError>)
        requires
            self.wf(),
        ensures
            self.items().contains_key(melody_id) ==> (r matches Ok(o) && o matches Some(m)
                && m@ == self.items()[melody_id] && answers_distinct(m@)),
            !self.items().contains_key(melody_id) ==> r == Result::<
                Option<Melody>,
                QuizError,
            >::Ok(None),
    {
        let key = melody_key_vec(melody_id);
        match self.kv.get(&key) {
            None => Ok(None),
            Some(bytes) => {
                match decode_melody(bytes) {
                    Some(m) => Ok(Some(m)),
                    None => {
                        proof {
                            assert(self.items().contains_key(melody_id));
                            assert(false);
                        }
                        Err(QuizError::DecodeError)
                    },
                }
            },
        }
    }

    /// Removes a melody from the catalog; a no-op for an absent id.
    pub fn delete_melody(&mut self, melody_id: u64) -> (r: Result<(), QuizError>)
        requires
            old(self).wf(),
        ensures
            final(self).wf(),
            r is Ok,
            final(self).items() == old(self).items().remove(melody_id),
            final(self).sessions() == old(self).sessions(),
            final(self).rng_state() == old(self).rng_state(),
            old(self).catalog_ids().contains(melody_id) ==> final(self).catalog_ids() == old(
                self,
            ).catalog_ids().remove(id_index(old(self).catalog_ids(), melody_id)),
            !old(self).catalog_ids().contains(melody_id) ==> final(self).catalog_ids() == old(
                self,
            ).catalog_ids(),
    {
        let ghost items0 = self.items_m@;
        let ghost sessions0 = self.sessions_m@;
        let ghost ids0 = self.item_ids@;
        let key = melody_key_vec(melody_id);
        self.kv.delete(&key);
        remove_id(&mut self.item_ids, melody_id);
        proof {
            self.items_m@ = items0.remove(melody_id);
            let kv1 = self.kv@;
            let items1 = self.items_m@;
            let ids1 = self.item_ids@;
            assert forall|id2: u64| #[trigger] items1.contains_key(id2) implies {
                &&& melody_fits(items1[id2])
                &&& answers_distinct(items1[id2])
                &&& items1[id2].id == id2
                &&& kv1.contains_key(melody_key(id2))
                &&& kv1[melody_key(id2)] == melody_bytes(items1[id2])
            } by {
                if melody_key(id2) == melody_key(melody_id) {
                    lemma_melody_key_injective(id2, melody_id);
                }
            }
            assert forall|id2: u64|
                kv1.contains_key(#[trigger] melody_key(id2)) implies items1.contains_key(
                id2,
            ) by {
                if melody_key(id2) == melody_key(melody_id) {
                    lemma_melody_key_injective(id2, melody_id);
                }
            }
            assert forall|c: i64| #[trigger] sessions0.contains_key(c) implies {
                &&& str_fits(sessions0[c])
                &&& kv1.contains_key(game_key(c))
                &&& kv1[game_key(c)] == game_bytes(
                    GameModel { chat_id: c, right_answer: sessions0[c] },
                )
            } by {
                lemma_namespaces_disjoint(melody_id, c);
            }
            assert forall|c: i64|
                kv1.contains_key(#[trigger] game_key(c)) implies sessions0.contains_key(c) by {
                lemma_namespaces_disjoint(melody_id, c);
            }
            assert forall|id2: u64| #[trigger] items1.contains_key(id2) implies ids1.contains(
                id2,
            ) by {
                assert(items0.contains_key(id2));
                assert(ids0.contains(id2));
                let i = choose|i: int| 0 <= i < ids0.len() && ids0[i] == id2;
                if ids0.contains(melody_id) {
                    let r = id_index(ids0, melody_id);
                    assert(ids0[r] == melody_id);
                    if i < r {
                        assert(ids1[i] == id2);
                    } else {
                        assert(i != r);
                        assert(ids1[i - 1] == id2);
                    }
                } else {
                    assert(ids1[i] == id2);
                }
            }
        }
        Ok(())
    }

    /// Writes the game of a chat, replacing any game already running there.
    pub fn store_game(&mut self, game: Game) -> (r: Result<(), QuizError>)
        requires
            old(self).wf(),
        ensures
            final(self).wf(),
            r is Ok,
            final(self).sessions() == old(self).sessions().insert(
                game.chat_id,
                game@.right_answer,
            ),
            final(self).items() == old(self).items(),
            final(self).catalog_ids() == old(self).catalog_ids(),
            final(self).rng_state() == old(self).rng_state(),
    {
        let ghost items0 = self.items_m@;
        let ghost sessions0 = self.sessions_m@;
        let chat_id = game.chat_id;
        let bytes = encode_game(&game);
        let key = game_key_vec(chat_id);
        self.kv.put(key, bytes);
        proof {
            self.sessions_m@ = sessions0.insert(chat_id, game@.right_answer);
            let kv1 = self.kv@;
            let sessions1 = self.sessions_m@;
            assert forall|c: i64| #[trigger] sessions1.contains_key(c) implies {
                &&& str_fits(sessions1[c])
                &&& kv1.contains_key(game_key(c))
                &&& kv1[game_key(c)] == game_bytes(
                    GameModel { chat_id: c, right_answer: sessions1[c] },
                )
            } by {
                if c != chat_id {
                    if game_key(c) == game_key(chat_id) {
                        lemma_game_key_injective(c, chat_id);
                    }
                }
            }
            assert forall|c: i64|
                kv1.contains_key(#[trigger] game_key(c)) implies sessions1.contains_key(c) by {
                if game_key(c) == game_key(chat_id) {
                    lemma_game_key_injective(c, chat_id);
                }
            }
            assert forall|id: u64| #[trigger] items0.contains_key(id) implies {
                &&& melody_fits(items0[id])
                &&& answers_distinct(items0[id])
                &&& items0[id].id == id
                &&& kv1.contains_key(melody_key(id))
                &&& kv1[melody_key(id)] == melody_bytes(items0[id])
            } by {
                lemma_namespaces_disjoint(id, chat_id);
            }
            assert forall|id: u64|
                kv1.contains_key(#[trigger] melody_key(id)) implies items0.contains_key(id) by {
                lemma_namespaces_disjoint(id, chat_id);
            }
        }
        Ok(())
    }

    /// Cancels the game of a chat: an unconditional, idempotent delete.
    pub fn delete_game(&mut self, chat_id: i64) -> (r: Result<(), QuizError>)
        requires
            old(self).wf(),
        ensures
            final(self).wf(),
            r is Ok,
            final(self).sessions() == old(self).sessions().remove(chat_id),
            final(self).items() == old(self).items(),
            final(self).catalog_ids() == old(self).catalog_ids(),
            final(self).rng_state() == old(self).rng_state(),
    {
        let ghost items0 = self.items_m@;
        let ghost sessions0 = self.sessions_m@;
        let key = game_key_vec(chat_id);
        self.kv.delete(&key);
        proof {
            self.sessions_m@ = sessions0.remove(chat_id);
            let kv1 = self.kv@;
            let sessions1 = self.sessions_m@;
            assert forall|c: i64| #[trigger] sessions1.contains_key(c) implies {
                &&& str_fits(sessions1[c])
                &&& kv1.contains_key(game_key(c))
                &&& kv1[game_key(c)] == game_bytes(
                    GameModel { chat_id: c, right_answer: sessions1[c] },
                )
            } by {
                if game_key(c) == game_key(chat_id) {
                    lemma_game_key_injective(c, chat_id);
                }
            }
            assert forall|c: i64|
                kv1.contains_key(#[trigger] game_key(c)) implies sessions1.contains_key(c) by {
                if game_key(c) == game_key(chat_id) {
                    lemma_game_key_injective(c, chat_id);
                }
            }
            assert forall|id: u64| #[trigger] items0.contains_key(id) implies {
                &&& melody_fits(items0[id])
                &&& answers_distinct(items0[id])
                &&& items0[id].id == id
                &&& kv1.contains_key(melody_key(id))
                &&& kv1[melody_key(id)] == melody_bytes(items0[id])
            } by {
                lemma_namespaces_disjoint(id, chat_id);
            }
            assert forall|id: u64|
                kv1.contains_key(#[trigger] melody_key(id)) implies items0.contains_key(id) by {
                lemma_namespaces_disjoint(id, chat_id);
            }
        }
        Ok(())
    }

    /// Reads the expected answer of a chat's game without consuming it.
    pub fn load_answer_for_game(&self, chat_id: i64) -> (r: Result<Option<String>, QuizError>)
        requires
            self.wf(),
        ensures
            self.sessions().contains_key(chat_id) ==> (r matches Ok(o) && o matches Some(a)
                && a@ == self.sessions()[chat_id]),
            !self.sessions().contains_key(chat_id) ==> r == Result::<
                Option<String>,
                QuizError,
            >::Ok(None),
    {
        let key = game_key_vec(chat_id);
        match self.kv.get(&key) {
            None => Ok(None),
            Some(bytes) => {
                match decode_game(bytes) {
                    Some(g) => Ok(Some(g.right_answer)),
                    None => {
                        proof {
                            assert(self.sessions().contains_key(chat_id));
                            assert(false);
                        }
                        Err(QuizError::DecodeError)
                    },
                }
            },
        }
    }

    /// The atomic check-and-clear: if a game is running for `chat_id`,
    /// returns its expected answer and deletes the game as one step;
    /// otherwise returns nothing and writes nothing.
    pub fn take_answer(&mut self, chat_id: i64) -> (r: Option<String>)
        requires
            old(self).wf(),
        ensures
            final(self).wf(),
            final(self).items() == old(self).items(),
            final(self).catalog_ids() == old(self).catalog_ids(),
            final(self).rng_state() == old(self).rng_state(),
            old(self).sessions().contains_key(chat_id) ==> (r matches Some(a) && a@ == old(
                self,
            ).sessions()[chat_id] && final(self).sessions() == old(self).sessions().remove(
                chat_id,
            )),
            !old(self).sessions().contains_key(chat_id) ==> r is None && final(self).sessions()
                == old(self).sessions(),
    {
        let key = game_key_vec(chat_id);
        let got: Option<Game> = match self.kv.get(&key) {
            None => None,
            Some(bytes) => decode_game(bytes),
        };
        match got {
            None => {
                proof {
                    if old(self).sessions().contains_key(chat_id) {
                        assert(false);
                    }
                }
                None
            },
            Some(g) => {
                let _ = self.delete_game(chat_id);
                Some(g.right_answer)
            },
        }
    }

    /// Draws a melody from the catalog by stepping the seed; returns
    /// nothing exactly when the catalog is empty.
    pub fn pick_random_melody(&mut self) -> (r: Option<Melody>)
        requires
            old(self).wf(),
        ensures
            final(self).wf(),
            final(self).items() == old(self).items(),
            final(self).sessions() == old(self).sessions(),
            final(self).catalog_ids() == old(self).catalog_ids(),
            old(self).catalog_ids().len() == 0 ==> r is None && final(self).rng_state() == old(
                self,
            ).rng_state(),
            old(self).catalog_ids().len() > 0 ==> {
                &&& final(self).rng_state() == next_seed(old(self).rng_state())
                &&& r matches Some(m) && m@ == old(self).items()[old(self).catalog_ids()[(
                next_seed(old(self).rng_state()) % (old(self).catalog_ids().len() as u64)) as int]]
                    && answers_distinct(m@)
            },
    {
        let n = self.item_ids.len();
        if n == 0 {
            return None;
        }
        let s0 = self.seed;
        let a = s0 ^ (s0 << 13);
        let c = a ^ (a >> 7);
        let s1 = c ^ (c << 17);
        assert(s1 == next_seed(s0));
        self.seed = s1;
        let idx = (s1 % (n as u64)) as usize;
        let id = self.item_ids[idx];
        let loaded = self.load_melody(id);
        proof {
            assert(self.items().contains_key(id));
        }
        match loaded {
            Ok(Some(m)) => Some(m),
            Ok(None) => {
                proof {
                    assert(false);
                }
                None
            },
            Err(_) => {
                proof {
                    assert(false);
                }
                None
            },
        }
    }
}

/// Whether an id index holds `id`.
fn contains_id(ids: &Vec<u64>, id: u64) -> (r: bool)
    ensures
        r == ids@.contains(id),
{
    let mut i: usize = 0;
    while i < ids.len()
        invariant
            i <= ids@.len(),
            forall|j: int| 0 <= j < i ==> ids@[j] != id,
        decreases ids@.len() - i,
    {
        if ids[i] == id {
            assert(ids@[i as int] == id);
            return true;
        }
        i = i + 1;
    }
    assert(!ids@.contains(id));
    false
}

/// Removes the binding of `id` from an id index that holds it at most once.
fn remove_id(ids: &mut Vec<u64>, id: u64)
    requires
        forall|i: int, j: int| 0 <= i < j < old(ids)@.len() ==> old(ids)@[i] != old(ids)@[j],
    ensures
        old(ids)@.contains(id) ==> final(ids)@ == old(ids)@.remove(id_index(old(ids)@, id)),
        !old(ids)@.contains(id) ==> final(ids)@ == old(ids)@,
{
    let mut i: usize = 0;
    while i < ids.len()
        invariant
            ids@ == old(ids)@,
            i <= ids@.len(),
            forall|j: int| 0 <= j < i ==> ids@[j] != id,
            forall|a: int, b: int| 0 <= a < b < ids@.len() ==> ids@[a] != ids@[b],
        decreases ids@.len() - i,
    {
        if ids[i] == id {
            proof {
                assert(ids@[i as int] == id);
                let k = id_index(ids@, id);
                assert(ids@[k] == id);
                if k < i as int {
                    assert(false);
                } else if (i as int) < k {
                    assert(ids@[i as int] != ids@[k]);
                    assert(false);
                }
            }
            ids.remove(i);
            return ;
        }
        i = i + 1;
    }
    assert(!ids@.contains(id));
}

} // verus!
