use card_movement_simulator::card_batches::DrawCards;
use card_movement_simulator::card_game::MoveResult;
use card_movement_simulator::card_move::CardMove;
use card_movement_simulator::reveal_from::{RevealAnswer, RevealStep};
use card_movement_simulator::{
    BaseCard, Card, CardEvent, CardGame, CardInfo, CardInstance, CardState, Effect,
    ExactCardLocation, GameState, InstanceID, PlayerSecret, SecretAnswer, SecretCardsInfo,
    SecretChange, SecretQuery, State, Step, Zone,
};
use rand::rngs::StdRng;
use rand::SeedableRng;
use std::cmp::Ordering;

#[derive(Clone, Debug, PartialEq)]
enum Kind {
    Basic,
    WithAttachment,
    Attachment,
}

#[derive(Clone, Debug, PartialEq)]
struct Tally {
    attached: u32,
}

impl CardState for Tally {
    fn eq(&self, other: &Self) -> bool {
        self.attached == other.attached
    }
}

impl BaseCard for Kind {
    type CardState = Tally;

    fn new_card_state(&self, _parent: Option<&Tally>) -> Tally {
        Tally { attached: 0 }
    }

    fn attachment(&self) -> Option<Self> {
        match self {
            Kind::WithAttachment => Some(Kind::Attachment),
            _ => None,
        }
    }

    fn reset_card(&self, _state: &Tally) -> Tally {
        Tally { attached: 0 }
    }
}

struct Rules;

impl State for Rules {
    type Secret = ();
    type BaseCard = Kind;
    type Event = ();

    fn on_attach(parent: &mut CardInstance<Self>, new_attach: &CardInstance<Self>) {
        assert_eq!(parent.attachment(), Some(new_attach.id()));
        parent.state.attached += 1;
    }

    fn on_detach(parent: &mut CardInstance<Self>, _old_attach: &CardInstance<Self>) {
        assert!(parent.attachment().is_none());
    }

    fn field_order(a: CardInfo<Self>, b: CardInfo<Self>) -> Ordering {
        a.instance.id.0.cmp(&b.instance.id.0)
    }
}

struct Table {
    game: CardGame<Rules>,
    secrets: Vec<PlayerSecret<Rules>>,
    player_logs: Vec<Vec<CardEvent<Rules>>>,
    reveals: usize,
    random: StdRng,
}

fn table() -> Table {
    Table {
        game: CardGame::new(GameState::new(Rules, false)),
        secrets: vec![PlayerSecret::new(0, ()), PlayerSecret::new(1, ())],
        player_logs: vec![Vec::new(), Vec::new()],
        reveals: 0,
        random: StdRng::seed_from_u64(11),
    }
}

fn change(t: &mut Table, player: u8, change: SecretChange<Rules>) {
    let p = player as usize;
    let mut log = Vec::new();
    assert!(t.secrets[p].apply_change(change, &mut log, &mut t.random));
    t.player_logs[p].append(&mut log);
}

fn perform(t: &mut Table, effects: Vec<Effect<Rules>>) {
    for effect in effects {
        match effect {
            Effect::Log { event } => {
                t.player_logs[0].push(event.clone());
                t.player_logs[1].push(event);
            }
            Effect::Mutate { player, change: c } => change(t, player, c),
            Effect::MutateOrLog { player, change: c, event } => {
                change(t, player, c);
                t.player_logs[1 - player as usize].push(event);
            }
        }
    }
}

fn ask(t: &mut Table, player: u8, query: &SecretQuery) -> SecretAnswer<Rules> {
    t.reveals += 1;
    t.secrets[player as usize].answer(query).expect("the secret can answer")
}

fn consistent(t: &Table) -> bool {
    let secrets = [Some(&t.secrets[0]), Some(&t.secrets[1])];
    t.game.state.ok(&secrets).is_ok()
}

fn move_card(t: &mut Table, card: Card, to_player: u8, to_zone: Zone) -> MoveResult {
    let (mut machine, mut step) = CardMove::start(&mut t.game.state, card, to_player, to_zone);
    loop {
        match step {
            Step::Reveal { effects, player, query } => {
                perform(t, effects);
                let a = ask(t, player, &query);
                step = machine.resume(&mut t.game.state, a);
            }
            Step::Done { effects, result } => {
                perform(t, effects);
                return result;
            }
            Step::Failed { .. } => panic!("the move failed"),
        }
    }
}

fn new_card(t: &mut Table, player: u8, kind: Kind) -> InstanceID {
    let (id, effects) = t.game.new_card(player, kind).expect("a public card is created");
    perform(t, effects);
    id
}

fn new_secret_cards(t: &mut Table, player: u8, kinds: &[Kind]) -> Vec<Card> {
    let start = t.game.start_new_cards();
    change(t, player, start);
    let p = player as usize;
    let mut log = Vec::new();
    {
        let mut info = SecretCardsInfo { secret: &mut t.secrets[p], log: &mut log };
        for kind in kinds {
            info.new_card(kind.clone());
        }
    }
    t.player_logs[p].append(&mut log);
    let (pointers, end) = match ask(t, player, &SecretQuery::NewCardsEnd) {
        SecretAnswer::Counts(pointers, end) => (pointers, end),
        _ => panic!("the secret answered another question"),
    };
    change(t, player, SecretChange::EndNewCards);
    t.game.new_secret_cards(player, pointers, end).expect("the secret only adds pointers and IDs")
}

fn reveal_id(t: &mut Table, card: Card) -> InstanceID {
    let f = |info: CardInfo<Rules>| info.instance.id;
    let mut step = t.game.reveal_from_card(card, &f);
    loop {
        match step {
            RevealStep::Done(id) => return id,
            RevealStep::Failed => panic!("no such card"),
            RevealStep::Ask { player, query } => {
                t.reveals += 1;
                let answer: RevealAnswer<InstanceID> =
                    t.secrets[player as usize].answer_reveal(&query, &f).expect("the secret can answer");
                step = t.game.resume_reveal_from(answer, &f);
            }
        }
    }
}

#[test]
fn replacing_attach_on_secret_card_does_not_leak_existence_of_current_attachment() {
    let mut t = table();
    let parent = new_card(&mut t, 0, Kind::WithAttachment);
    move_card(&mut t, Card::ID(parent), 0, Zone::Hand { public: false }).expect("to the secret hand");
    let card = new_card(&mut t, 0, Kind::Attachment);
    t.reveals = 0;
    move_card(&mut t, Card::ID(card), 0, Zone::Attachment { parent: Card::ID(parent) }).expect("attached");
    assert_eq!(
        t.reveals, 0,
        "No reveals need to be made when attaching a public card to a secret card, even if it already has an attachment."
    );
    assert!(consistent(&t));
}

#[test]
fn opaque_pointer_association_does_not_hold_through_draw() {
    let mut t = table();
    let card_id = new_card(&mut t, 0, Kind::Basic);
    assert_eq!(t.game.state.player_cards(0).deck(), 0);
    move_card(&mut t, Card::ID(card_id), 0, Zone::Deck).expect("to the deck");
    assert_eq!(t.game.state.player_cards(0).deck(), 1);
    let mut random = StdRng::seed_from_u64(5);
    let (mut machine, mut step) = DrawCards::start(&mut t.game, 0, 1, &mut random);
    let drawn = loop {
        match step {
            Step::Reveal { effects, player, query } => {
                perform(&mut t, effects);
                let a = ask(&mut t, player, &query);
                step = machine.resume(&mut t.game, a);
            }
            Step::Done { effects, result } => {
                perform(&mut t, effects);
                break result;
            }
            Step::Failed { .. } => panic!("the draw failed"),
        }
    };
    let drawn_card = drawn.into_iter().next().expect("Player should have drawn a card.");
    assert!(drawn_card.id().is_none(), "The drawn card must be secret.");
    let drawn_id = reveal_id(&mut t, drawn_card);
    assert_eq!(card_id, drawn_id);
}

fn instance_from_id_setup() -> Table {
    let mut t = table();
    let card = new_card(&mut t, 0, Kind::WithAttachment);
    move_card(&mut t, Card::ID(card), 0, Zone::Field).expect("to the field");
    assert_eq!(t.game.state.instances(), 2);
    let secret = new_secret_cards(&mut t, 0, &[Kind::Basic])[0];
    assert_eq!(t.game.state.instances(), 4);
    move_card(&mut t, secret, 0, Zone::Deck).expect("to the deck");
    assert_eq!(t.game.state.instances(), 4);
    let secret = new_secret_cards(&mut t, 1, &[Kind::Basic])[0];
    move_card(&mut t, secret, 1, Zone::Deck).expect("to the deck");
    assert_eq!(t.game.state.instances(), 6);
    assert!(consistent(&t));
    t
}

#[test]
fn public_instance_from_id() {
    let t = instance_from_id_setup();
    let id: InstanceID = InstanceID::from_raw(1);
    assert!(id.instance(&t.game.state, None).is_some());
}

#[test]
fn secret_instance_from_id() {
    let t = instance_from_id_setup();
    let id: InstanceID = InstanceID::from_raw(0);
    assert!(id.instance(&t.game.state, Some(&t.secrets[0])).is_some());
}

#[test]
fn opponent_instance_from_id() {
    let t = instance_from_id_setup();
    let id: InstanceID = InstanceID::from_raw(4);
    assert!(id.instance(&t.game.state, Some(&t.secrets[0])).is_none());
}

#[test]
fn move_secret_hand_to_public_hand() {
    let mut t = table();
    let hand = new_secret_cards(&mut t, 0, &[Kind::Basic, Kind::Basic, Kind::Basic, Kind::Basic, Kind::Basic]);
    for card in &hand {
        move_card(&mut t, *card, 0, Zone::Hand { public: false }).expect("to the secret hand");
    }
    move_card(&mut t, hand[2], 0, Zone::Hand { public: true }).expect("to the public hand");
    assert!(consistent(&t));
    let mut actual_player_logs = t.player_logs[0].clone().into_iter();
    for i in 0..5 {
        let move_to_secret_hand_event = actual_player_logs.next().expect("Expected Some(CardEvent::MoveCard), got None.");
        if let CardEvent::MoveCard {
            to: ExactCardLocation { player: 0, location: (Zone::Hand { public: false }, index) },
            ..
        } = move_to_secret_hand_event
        {
            assert_eq!(index, i);
        } else {
            panic!("Expected MoveCard to secret hand");
        };
    }
    let reveal_hand_event = actual_player_logs.next().expect("Expected Some(CardEvent::MoveCard), got None.");
    assert!(
        matches!(
            reveal_hand_event,
            CardEvent::MoveCard { to: ExactCardLocation { player: 0, location: (Zone::Hand { public: true }, 2) }, .. }
        ),
        "Expected MoveCard to public hand position 2"
    );
}
