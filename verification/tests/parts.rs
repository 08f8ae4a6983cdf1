use card_movement_simulator::card_location::{CardLocation, ExactCardLocation};
use card_movement_simulator::error::{CardEqualityError, SecretModifyCardError, ZoneEqualityError};
use card_movement_simulator::{
    BaseCard, Card, CardEvent, CardGame, CardInfo, CardInstance, CardState, GameState, InstanceID,
    OpaquePointer, PlayerCards, PlayerSecret, SecretAnswer, SecretChange, SecretQuery, State, Zone,
};
use rand::rngs::StdRng;
use rand::SeedableRng;
use std::cmp::Ordering;

#[derive(Clone, Debug, PartialEq)]
enum Kind {
    Plain,
    Armed,
    Arm,
}

#[derive(Clone, Debug, PartialEq)]
struct Level(u32);

impl CardState for Level {
    fn eq(&self, other: &Self) -> bool {
        self.0 == other.0
    }
}

impl BaseCard for Kind {
    type CardState = Level;

    fn new_card_state(&self, _parent: Option<&Level>) -> Level {
        Level(1)
    }

    fn attachment(&self) -> Option<Self> {
        match self {
            Kind::Armed => Some(Kind::Arm),
            _ => None,
        }
    }

    fn reset_card(&self, _state: &Level) -> Level {
        Level(1)
    }
}

struct Rules;

impl State for Rules {
    type Secret = ();
    type BaseCard = Kind;
    type Event = ();

    fn on_attach(parent: &mut CardInstance<Self>, _attachment: &CardInstance<Self>) {
        parent.state.0 += 10;
    }

    fn on_detach(_parent: &mut CardInstance<Self>, _attachment: &CardInstance<Self>) {}

    fn field_order(a: CardInfo<Self>, b: CardInfo<Self>) -> Ordering {
        b.instance.id.0.cmp(&a.instance.id.0)
    }
}

fn id(n: usize) -> InstanceID {
    InstanceID::from_raw(n)
}

fn pointer(player: u8, index: usize) -> Card {
    Card::Pointer(OpaquePointer::from_raw(player, index))
}

fn cards() -> PlayerCards {
    PlayerCards {
        deck: 2,
        hand: vec![Some(id(4)), None, Some(id(5))],
        field: vec![id(1)],
        graveyard: vec![id(2)],
        dust: vec![id(3)],
        limbo: vec![id(6)],
        casting: vec![id(7)],
        card_selection: 1,
        pointers: 0,
    }
}

#[test]
fn zone_predicates() {
    assert!(Zone::Deck.is_deck());
    assert!(Zone::Hand { public: true }.is_public_hand());
    assert!(Zone::Hand { public: false }.is_secret_hand());
    assert!(Zone::Hand { public: false }.is_hand());
    assert!(!Zone::Field.is_hand());
    assert!(Zone::Dust { public: true }.is_public_dust());
    assert!(Zone::Dust { public: false }.is_secret_dust());
    assert!(Zone::Limbo { public: false }.is_secret_limbo());
    assert!(Zone::Limbo { public: true }.is_public_limbo());
    assert!(Zone::Attachment { parent: Card::ID(id(0)) }.is_attachment());
    assert!(Zone::Casting.is_casting());
    assert!(Zone::CardSelection.is_card_selection());
    assert!(Zone::Graveyard.is_graveyard());
    assert!(Zone::Field.is_field());
}

#[test]
fn zone_equality() {
    assert!(matches!(Zone::Deck.eq(Zone::Deck), Ok(true)));
    assert!(matches!(Zone::Deck.eq(Zone::Field), Ok(false)));
    assert!(matches!(Zone::Hand { public: true }.eq(Zone::Hand { public: false }), Ok(false)));
    assert!(matches!(Zone::Deck.ne(Zone::Field), Ok(true)));
    let a = Zone::Attachment { parent: Card::ID(id(1)) };
    let b = Zone::Attachment { parent: Card::ID(id(2)) };
    assert!(matches!(a.eq(a), Ok(true)));
    assert!(matches!(a.eq(b), Ok(false)));
    assert!(matches!(a.eq(Zone::Deck), Ok(false)));
    let c = Zone::Attachment { parent: pointer(0, 0) };
    assert!(matches!(a.eq(c), Err(ZoneEqualityError::IncomparableZones { .. })));
    assert!(matches!(a.ne(c), Err(ZoneEqualityError::IncomparableZones { .. })));
}

#[test]
fn card_equality() {
    assert!(matches!(Card::ID(id(1)).eq(Card::ID(id(1))), Ok(true)));
    assert!(matches!(Card::ID(id(1)).eq(Card::ID(id(2))), Ok(false)));
    assert!(matches!(Card::ID(id(1)).ne(Card::ID(id(2))), Ok(true)));
    assert!(matches!(pointer(0, 3).eq(pointer(0, 3)), Ok(true)));
    assert!(matches!(pointer(0, 3).eq(pointer(0, 4)), Err(CardEqualityError::IncomparableCards { .. })));
    assert!(matches!(pointer(0, 3).eq(Card::ID(id(3))), Err(CardEqualityError::IncomparableCards { .. })));
    assert!(matches!(Card::ID(id(3)).ne(pointer(1, 0)), Err(CardEqualityError::IncomparableCards { .. })));
}

#[test]
fn raw_constructors() {
    assert_eq!(InstanceID::from_raw(9).raw(), 9);
    let p = OpaquePointer::from_raw(1, 4);
    assert_eq!(p.player(), 1);
    assert_eq!(p.index(), 4);
    assert_eq!(Card::from(p).pointer().map(|q| q.index()), Some(4));
    assert_eq!(Card::from(id(2)).id(), Some(id(2)));
}

#[test]
fn player_cards_locations() {
    let c = cards();
    assert_eq!(c.location(id(1)).map(|l| l.1), Some(0));
    assert!(matches!(c.location(id(1)), Some((Zone::Field, 0))));
    assert!(matches!(c.location(id(5)), Some((Zone::Hand { public: true }, 2))));
    assert!(matches!(c.location(id(3)), Some((Zone::Dust { public: true }, 0))));
    assert!(matches!(c.zone(id(7)), Some(Zone::Casting)));
    assert!(matches!(c.zone(id(6)), Some(Zone::Limbo { public: true })));
    assert!(c.location(id(9)).is_none());
    assert_eq!(c.deck(), 2);
    assert_eq!(c.card_selection(), 1);
    assert_eq!(c.hand().len(), 3);
    assert!(c.can_remove(Zone::Field, 0));
    assert!(!c.can_remove(Zone::Field, 1));
}

#[test]
fn location_equality() {
    let a = CardLocation { player: 0, location: Some((Zone::Field, Some(1))) };
    let b = CardLocation { player: 0, location: Some((Zone::Field, Some(2))) };
    let secret = CardLocation { player: 0, location: None };
    assert!(a.eq(&a));
    assert!(!a.eq(&b));
    assert!(secret.eq(&secret));
    assert!(!a.eq(&secret));
    let x = ExactCardLocation { player: 1, location: (Zone::Deck, 0) };
    let y = ExactCardLocation { player: 1, location: (Zone::Deck, 1) };
    assert!(x.eq(&x));
    assert!(!x.eq(&y));
}

#[test]
fn event_equality() {
    let e: CardEvent<Rules> = CardEvent::SortField { player: 0, field: vec![id(1), id(2)], real: true };
    let f: CardEvent<Rules> = CardEvent::SortField { player: 0, field: vec![id(2), id(1)], real: true };
    assert!(e.eq(&e));
    assert!(!e.eq(&f));
    let s: CardEvent<Rules> = CardEvent::ShuffleDeck { player: 0, deck: vec![] };
    assert!(!s.eq(&s));
}

fn secret_with_cards() -> (PlayerSecret<Rules>, Vec<CardEvent<Rules>>) {
    let mut secret = PlayerSecret::new(0, ());
    let mut log = Vec::new();
    secret.next_instance = Some(id(0));
    let plain = secret.new_card(Kind::Plain, &mut log);
    let armed = secret.new_card(Kind::Armed, &mut log);
    assert_eq!(plain, id(1));
    assert_eq!(armed, id(3));
    (secret, log)
}

#[test]
fn secret_new_card_numbers_and_attaches() {
    let (secret, log) = secret_with_cards();
    assert_eq!(secret.next_instance, Some(id(4)));
    assert_eq!(secret.limbo, vec![id(1), id(3)]);
    assert_eq!(secret.pointers, vec![id(1), id(3)]);
    let armed = secret.instance(Card::ID(id(3))).unwrap();
    assert_eq!(armed.attachment, Some(id(2)));
    assert_eq!(armed.state, Level(11));
    assert!(secret.instance(Card::ID(id(0))).is_none());
    assert!(matches!(log.last(), Some(CardEvent::ModifyCard { .. })));
    assert!(secret.check_wf());
}

#[test]
fn secret_pointers_resolve() {
    let (mut secret, _) = secret_with_cards();
    assert!(secret.point_to(Zone::Limbo { public: false }, 1));
    assert_eq!(secret.id(pointer(0, 2)), Some(id(3)));
    assert!(!secret.point_to(Zone::Deck, 0));
    assert!(!secret.point_to(Zone::Field, 0));
    assert_eq!(secret.id(pointer(1, 0)), None);
}

#[test]
fn secret_answers_questions() {
    let (secret, _) = secret_with_cards();
    assert!(matches!(secret.answer(&SecretQuery::PointerTarget { index: 0 }), Some(SecretAnswer::Id(i)) if i == id(1)));
    assert!(secret.answer(&SecretQuery::PointerTarget { index: 5 }).is_none());
    assert!(matches!(secret.answer(&SecretQuery::PointerCount), Some(SecretAnswer::Count(2))));
    assert!(matches!(secret.answer(&SecretQuery::SameTarget { a: 0, b: 1 }), Some(SecretAnswer::Flag(false))));
    assert!(matches!(secret.answer(&SecretQuery::UnattachedTarget { index: 0 }), Some(SecretAnswer::Target(Some(i))) if i == id(1)));
    assert!(matches!(secret.answer(&SecretQuery::HeldOrTarget { index: 1 }), Some(SecretAnswer::Resolved(Card::Pointer(_)))));
}

#[test]
fn secret_modify_card_keeps_id_and_logs() {
    let (mut secret, _) = secret_with_cards();
    let mut log = Vec::new();
    let r = secret.modify_card(Card::ID(id(1)), &mut log, |info| {
        info.instance.state = Level(7);
        info.instance.attachment = Some(id(99));
    });
    assert!(r.is_ok());
    let card = secret.instance(Card::ID(id(1))).unwrap();
    assert_eq!(card.state, Level(7));
    assert_eq!(card.attachment, None);
    assert!(matches!(log.last(), Some(CardEvent::ModifyCard { .. })));
    let missing = secret.modify_card(Card::ID(id(8)), &mut log, |_| {});
    assert!(matches!(missing, Err(SecretModifyCardError::MissingInstance { .. })));
}

#[test]
fn secret_reset_restores_states() {
    let (mut secret, _) = secret_with_cards();
    let mut log = Vec::new();
    assert!(secret.modify_card(Card::ID(id(1)), &mut log, |info| info.instance.state = Level(7)).is_ok());
    secret.next_instance = Some(id(10));
    assert!(secret.reset_held_card(id(1), &mut log));
    assert_eq!(secret.instance(Card::ID(id(1))).unwrap().state, Level(1));
    assert!(secret.reset_held_card(id(3), &mut log));
    let armed = secret.instance(Card::ID(id(3))).unwrap();
    assert_eq!(armed.attachment, Some(id(2)));
    assert_eq!(armed.state, Level(11));
    assert_eq!(secret.next_instance, Some(id(10)));
    assert!(!secret.reset_held_card(id(9), &mut log));
    assert!(secret.check_wf());
}

#[test]
fn secret_reset_through_pointer_skips_an_id() {
    let (mut secret, _) = secret_with_cards();
    let mut log = Vec::new();
    secret.next_instance = Some(id(10));
    assert!(secret.reset_pointed_card(1, &mut log));
    assert_eq!(secret.next_instance, Some(id(11)));
    assert!(!secret.reset_pointed_card(7, &mut log));
}

#[test]
fn secret_copy_card_takes_next_ids() {
    let (mut secret, _) = secret_with_cards();
    let mut log = Vec::new();
    secret.next_instance = Some(id(20));
    let copy = secret.copy_card(Card::ID(id(3)), &Vec::new(), true, true, &mut log);
    assert_eq!(copy, Some(id(20)));
    assert_eq!(secret.instance(Card::ID(id(20))).unwrap().attachment, Some(id(21)));
    assert_eq!(secret.next_instance, Some(id(22)));
    assert_eq!(secret.pointers.last(), Some(&id(20)));
    assert!(secret.check_wf());
    assert_eq!(secret.copy_card(Card::ID(id(40)), &Vec::new(), false, true, &mut log), None);
}

#[test]
fn apply_change_refuses_what_it_cannot_do() {
    let (mut secret, _) = secret_with_cards();
    let mut log = Vec::new();
    let mut random = StdRng::seed_from_u64(1);
    assert!(!secret.apply_change(SecretChange::RemoveHandAt { index: 0 }, &mut log, &mut random));
    assert!(!secret.apply_change(SecretChange::PointToAll { zone: Zone::Field }, &mut log, &mut random));
    assert!(secret.apply_change(SecretChange::PointToAll { zone: Zone::Limbo { public: false } }, &mut log, &mut random));
    assert_eq!(secret.pointers.len(), 4);
}

#[test]
fn new_secret_pointers_hand_out_the_new_ones() {
    let mut game: CardGame<Rules> = CardGame::new(GameState::new(Rules, false));
    let cards = game.new_secret_pointers(1, 3).expect("the count grew");
    assert_eq!(cards.len(), 3);
    assert!(matches!(cards[2], Card::Pointer(p) if p.player() == 1 && p.index() == 2));
    assert!(game.new_secret_pointers(1, 2).is_none());
    assert_eq!(game.state.player_cards(1).pointers(), 3);
}

#[test]
fn new_secret_cards_extend_the_instance_table() {
    let mut game: CardGame<Rules> = CardGame::new(GameState::new(Rules, false));
    let cards = game.new_secret_cards(0, 2, 4).expect("IDs were used");
    assert_eq!(cards.len(), 2);
    assert_eq!(game.state.instances(), 4);
    assert!(game.new_secret_cards(0, 1, 4).is_none());
    assert!(game.new_secret_cards_with_fakes(0, 2, 6));
    assert_eq!(game.state.instances(), 6);
}

#[test]
fn filter_cards_keeps_marked_cards() {
    let all = vec![Card::ID(id(1)), pointer(0, 0), Card::ID(id(2))];
    let kept = CardGame::<Rules>::filter_cards(&all, &vec![true, false, true]);
    assert_eq!(kept.len(), 2);
    assert_eq!(kept[1].id(), Some(id(2)));
}

#[test]
fn hand_cards_points_to_secret_entries() {
    let mut game: CardGame<Rules> = CardGame::new(GameState::new(Rules, false));
    game.state.player_cards[1].hand = vec![Some(id(0)), None, None];
    let (hand, effects) = game.hand_cards(1);
    assert_eq!(hand.len(), 3);
    assert_eq!(hand[0].id(), Some(id(0)));
    assert!(matches!(hand[1], Card::Pointer(p) if p.index() == 0));
    assert!(matches!(hand[2], Card::Pointer(p) if p.index() == 1));
    assert_eq!(effects.len(), 3);
    assert_eq!(game.state.player_cards(1).pointers(), 2);
}

#[test]
fn move_within_puts_the_card_last_in_its_zone() {
    let (mut secret, _) = secret_with_cards();
    let mut log = Vec::new();
    let mut random = StdRng::seed_from_u64(3);
    let to_deck = SecretChange::MoveWithin { card: Card::ID(id(1)), to_zone: Zone::Deck };
    assert!(secret.apply_change(to_deck, &mut log, &mut random));
    let to_deck = SecretChange::MoveWithin { card: Card::ID(id(3)), to_zone: Zone::Deck };
    assert!(secret.apply_change(to_deck, &mut log, &mut random));
    assert_eq!(secret.deck, vec![id(1), id(3)]);
    assert!(secret.limbo.is_empty());
    assert!(secret.check_wf());
    let to_field = SecretChange::MoveWithin { card: Card::ID(id(1)), to_zone: Zone::Field };
    assert!(!secret.apply_change(to_field, &mut log, &mut random));
    let unknown = SecretChange::MoveWithin { card: Card::ID(id(9)), to_zone: Zone::Deck };
    assert!(!secret.apply_change(unknown, &mut log, &mut random));
    assert_eq!(secret.deck, vec![id(1), id(3)]);
}
