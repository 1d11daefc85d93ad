use rusty_melody_bot::codec::{decode_game, decode_melody, encode_melody, encode_u64};
use rusty_melody_bot::storage::Storage;
use rusty_melody_bot::{Game, Melody, QuizError};

fn scarborough() -> Melody {
    Melody {
        id: 1,
        file_id: "audio-ref-1".to_string(),
        right_answer: "Scarborough Fair".to_string(),
        wrong_answers: [
            "Green sleeves".to_string(),
            "Morrison Jig".to_string(),
            "Pied Piper".to_string(),
        ],
    }
}

#[test]
fn rocksdb_init() {
    let mut storage = Storage::new(1);
    storage.store_melody(scarborough()).unwrap();
    match storage.load_melody(1) {
        Ok(Some(melody)) => {
            println!("Retrieved value {:?}", melody);
            assert_eq!(melody, scarborough());
        }
        Ok(None) => panic!("value not found"),
        Err(e) => panic!("operational problem encountered: {:?}", e),
    }
}

#[test]
fn load_absent_melody_is_none() {
    let storage = Storage::new(0);
    assert_eq!(storage.load_melody(42), Ok(None));
}

#[test]
fn delete_melody_removes_it() {
    let mut storage = Storage::new(0);
    storage.store_melody(scarborough()).unwrap();
    storage.delete_melody(1).unwrap();
    assert_eq!(storage.load_melody(1), Ok(None));
    assert!(storage.pick_random_melody().is_none());
}

#[test]
fn store_melody_overwrites_same_id() {
    let mut storage = Storage::new(0);
    storage.store_melody(scarborough()).unwrap();
    let mut other = scarborough();
    other.right_answer = "Danny Boy".to_string();
    storage.store_melody(copy_of(&other)).unwrap();
    assert_eq!(storage.load_melody(1), Ok(Some(other)));
}

#[test]
fn colliding_answers_are_rejected() {
    let mut storage = Storage::new(0);
    let bad = Melody {
        id: 9,
        file_id: "audio-9".to_string(),
        right_answer: "Scarborough Fair".to_string(),
        wrong_answers: [
            "Scarborough Fair".to_string(),
            "Morrison Jig".to_string(),
            "Pied Piper".to_string(),
        ],
    };
    assert_eq!(storage.store_melody(bad), Err(QuizError::InvalidItem));
    assert_eq!(storage.load_melody(9), Ok(None));
}

#[test]
fn game_round_trip_via_store() {
    let mut storage = Storage::new(0);
    storage
        .store_game(Game { chat_id: -7, right_answer: "Scarborough Fair".to_string() })
        .unwrap();
    let answer = storage.load_answer_for_game(-7).unwrap();
    assert_eq!(answer, Some("Scarborough Fair".to_string()));
}

#[test]
fn take_answer_consumes_the_session() {
    let mut storage = Storage::new(0);
    storage.store_game(Game { chat_id: 5, right_answer: "x".to_string() }).unwrap();
    assert_eq!(storage.take_answer(5), Some("x".to_string()));
    assert_eq!(storage.take_answer(5), None);
    assert_eq!(storage.load_answer_for_game(5), Ok(None));
}

#[test]
fn store_game_overwrites_prior_session() {
    let mut storage = Storage::new(0);
    storage.store_game(Game { chat_id: 7, right_answer: "first".to_string() }).unwrap();
    storage.store_game(Game { chat_id: 7, right_answer: "second".to_string() }).unwrap();
    assert_eq!(storage.take_answer(7), Some("second".to_string()));
}

#[test]
fn sessions_and_catalog_do_not_collide() {
    let mut storage = Storage::new(0);
    storage.store_melody(scarborough()).unwrap();
    storage.store_game(Game { chat_id: 1, right_answer: "a".to_string() }).unwrap();
    assert_eq!(storage.load_melody(1), Ok(Some(scarborough())));
    assert_eq!(storage.take_answer(1), Some("a".to_string()));
    assert_eq!(storage.load_melody(1), Ok(Some(scarborough())));
}

#[test]
fn empty_answer_round_trips() {
    let mut storage = Storage::new(0);
    storage.store_game(Game { chat_id: 0, right_answer: "".to_string() }).unwrap();
    assert_eq!(storage.take_answer(0), Some("".to_string()));
}

#[test]
fn unicode_answers_round_trip() {
    let mut storage = Storage::new(0);
    let melody = Melody {
        id: 3,
        file_id: "audio-3".to_string(),
        right_answer: "Grieg — Morgenstemning".to_string(),
        wrong_answers: [
            "Sibelius — Finlandia".to_string(),
            "Dvořák — Humoresque".to_string(),
            "Smetana — Vltava".to_string(),
        ],
    };
    storage.store_melody(copy_of(&melody)).unwrap();
    assert_eq!(storage.load_melody(3), Ok(Some(melody)));
}

#[test]
fn encode_u64_is_little_endian() {
    let mut out: Vec<u8> = Vec::new();
    encode_u64(0x0102030405060708, &mut out);
    assert_eq!(out, vec![0x08, 0x07, 0x06, 0x05, 0x04, 0x03, 0x02, 0x01]);
}

#[test]
fn melody_codec_round_trips() {
    let bytes = encode_melody(&scarborough());
    let back = decode_melody(&bytes).expect("an encoding must decode");
    assert_eq!(back, scarborough());
}

#[test]
fn garbage_bytes_do_not_decode() {
    let garbage: Vec<u8> = vec![9, 9, 9];
    assert!(decode_melody(&garbage).is_none());
    assert!(decode_game(&garbage).is_none());
    let empty: Vec<u8> = Vec::new();
    assert!(decode_melody(&empty).is_none());
    assert!(decode_game(&empty).is_none());
}

fn copy_of(m: &Melody) -> Melody {
    Melody {
        id: m.id,
        file_id: m.file_id.clone(),
        right_answer: m.right_answer.clone(),
        wrong_answers: m.wrong_answers.clone(),
    }
}
