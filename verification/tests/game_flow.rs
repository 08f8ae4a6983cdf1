use card_movement_simulator::card_batches::{DrawCards, MoveCards};
use card_movement_simulator::card_game::MoveResult;
use card_movement_simulator::card_move::CardMove;
use card_movement_simulator::copy_card::CopyCard;
use card_movement_simulator::reset_card::ResetCard;
use card_movement_simulator::reveal_parent::RevealParent;
use card_movement_simulator::{
    BaseCard, Card, CardEvent, CardGame, CardInfo, CardInstance, CardState, Effect, GameState,
    InstanceID, InstanceOrPlayer, PlayerSecret, SecretAnswer, State, Step, Zone,
};
use rand::rngs::StdRng;
use rand::SeedableRng;
use std::cmp::Ordering;

#[derive(Clone, Debug, PartialEq)]
enum Base {
    Basic,
    WithAttachment,
    Attachment,
}

#[derive(Clone, Debug, PartialEq)]
struct Counter {
    n: u32,
    attached: u32,
}

impl CardState for Counter {
    fn eq(&self, other: &Self) -> bool {
        self.n == other.n && self.attached == other.attached
    }
}

impl BaseCard for Base {
    type CardState = Counter;

    fn new_card_state(&self, _parent: Option<&Counter>) -> Counter {
        Counter { n: 0, attached: 0 }
    }

    fn attachment(&self) -> Option<Self> {
        match self {
            Base::WithAttachment => Some(Base::Attachment),
            _ => None,
        }
    }

    fn reset_card(&self, _state: &Counter) -> Counter {
        Counter { n: 0, attached: 0 }
    }
}

struct Game;

impl State for Game {
    type Secret = ();
    type BaseCard = Base;
    type Event = ();

    fn on_attach(parent: &mut CardInstance<Self>, _attachment: &CardInstance<Self>) {
        parent.state.attached += 1;
    }

    fn on_detach(_parent: &mut CardInstance<Self>, _attachment: &CardInstance<Self>) {}

    fn field_order(a: CardInfo<Self>, b: CardInfo<Self>) -> Ordering {
        a.instance.id.0.cmp(&b.instance.id.0)
    }
}

struct Table {
    game: CardGame<Game>,
    secrets: Vec<PlayerSecret<Game>>,
    public_log: Vec<CardEvent<Game>>,
    secret_logs: Vec<Vec<CardEvent<Game>>>,
    random: StdRng,
}

fn table() -> Table {
    Table {
        game: CardGame::new(GameState::new(Game, false)),
        secrets: vec![PlayerSecret::new(0, ()), PlayerSecret::new(1, ())],
        public_log: Vec::new(),
        secret_logs: vec![Vec::new(), Vec::new()],
        random: StdRng::seed_from_u64(7),
    }
}

fn perform(t: &mut Table, effects: Vec<Effect<Game>>) {
    for effect in effects {
        match effect {
            Effect::Log { event } => t.public_log.push(event),
            Effect::Mutate { player, change } => {
                let p = player as usize;
                assert!(t.secrets[p].apply_change(change, &mut t.secret_logs[p], &mut t.random));
            }
            Effect::MutateOrLog { player, change, event } => {
                let p = player as usize;
                assert!(t.secrets[p].apply_change(change, &mut t.secret_logs[p], &mut t.random));
                t.public_log.push(event);
            }
        }
    }
}

fn answer(t: &Table, player: u8, query: &card_movement_simulator::SecretQuery) -> SecretAnswer<Game> {
    t.secrets[player as usize].answer(query).expect("the secret can answer")
}

fn consistent(t: &Table) -> bool {
    let secrets = [Some(&t.secrets[0]), Some(&t.secrets[1])];
    t.game.state.ok(&secrets).is_ok()
}

fn move_card(t: &mut Table, card: Card, to_player: u8, to_zone: Zone) -> MoveResult {
    let (mut machine, mut step) = CardMove::start(&mut t.game.state, card, to_player, to_zone);
    loop {
        match step {
            Step::Reveal { effects, player, query } => {
                perform(t, effects);
                let a = answer(t, player, &query);
                step = machine.resume(&mut t.game.state, a);
            }
            Step::Done { effects, result } => {
                perform(t, effects);
                return result;
            }
            Step::Failed { effects } => {
                perform(t, effects);
                panic!("the move failed");
            }
        }
    }
}

fn new_card(t: &mut Table, player: u8, base: Base) -> InstanceID {
    let (id, effects) = t.game.new_card(player, base).expect("a public card is created");
    perform(t, effects);
    id
}

fn public_card(t: &Table, id: InstanceID) -> Option<&CardInstance<Game>> {
    match &t.game.state.instances[id.0] {
        InstanceOrPlayer::Instance(i) => Some(i),
        InstanceOrPlayer::Player(_) => None,
    }
}

#[test]
fn new_game_is_consistent() {
    let t = table();
    assert!(consistent(&t));
    assert_eq!(t.game.state.instances(), 0);
}

#[test]
fn new_card_goes_to_public_limbo() {
    let mut t = table();
    let id = new_card(&mut t, 0, Base::Basic);
    assert_eq!(id, InstanceID::from_raw(0));
    assert_eq!(t.game.state.player_cards(0).limbo, vec![id]);
    assert!(consistent(&t));
}

#[test]
fn new_card_with_attachment_attaches_it() {
    let mut t = table();
    let id = new_card(&mut t, 0, Base::WithAttachment);
    let card = public_card(&t, id).unwrap();
    assert_eq!(card.attachment, Some(InstanceID::from_raw(1)));
    assert_eq!(card.state.attached, 1);
    assert_eq!(t.game.state.player_cards(0).limbo, vec![id]);
    assert!(consistent(&t));
}

#[test]
fn public_move_to_field() {
    let mut t = table();
    let id = new_card(&mut t, 0, Base::Basic);
    let result = move_card(&mut t, Card::ID(id), 0, Zone::Field);
    let (from, revealed) = result.expect("the move succeeds");
    assert_eq!(revealed, Some(id));
    assert_eq!(from.player, 0);
    assert!(matches!(from.location, Some((Zone::Limbo { public: true }, Some(0)))));
    assert_eq!(t.game.state.player_cards(0).field, vec![id]);
    assert!(t.game.state.player_cards(0).limbo.is_empty());
    assert!(consistent(&t));
}

#[test]
fn move_to_deck_makes_the_card_secret() {
    let mut t = table();
    let id = new_card(&mut t, 1, Base::Basic);
    move_card(&mut t, Card::ID(id), 1, Zone::Deck).expect("the move succeeds");
    assert_eq!(t.game.state.player_cards(1).deck, 1);
    assert!(public_card(&t, id).is_none());
    assert_eq!(t.secrets[1].deck, vec![id]);
    assert!(consistent(&t));
}

#[test]
fn deck_card_pointer_resolves_to_the_deck_card() {
    let mut t = table();
    let id = new_card(&mut t, 0, Base::Basic);
    move_card(&mut t, Card::ID(id), 0, Zone::Deck).expect("the move succeeds");
    let (card, effects) = t.game.deck_card(0, 0);
    perform(&mut t, effects);
    assert!(matches!(card, Card::Pointer(p) if p.player() == 0 && p.index() == 0));
    assert_eq!(t.secrets[0].id(card), Some(id));
    assert!(matches!(t.public_log.last(), Some(CardEvent::NewPointer { .. })));
    assert!(consistent(&t));
}

#[test]
fn secret_card_moves_back_to_public_field() {
    let mut t = table();
    let id = new_card(&mut t, 0, Base::Basic);
    move_card(&mut t, Card::ID(id), 0, Zone::Hand { public: false }).expect("to hand");
    assert!(consistent(&t));
    let (cards, effects) = t.game.hand_cards(0);
    perform(&mut t, effects);
    assert_eq!(cards.len(), 1);
    assert!(matches!(cards[0], Card::Pointer(_)));
    move_card(&mut t, cards[0], 0, Zone::Field).expect("to field");
    assert_eq!(t.game.state.player_cards(0).field, vec![id]);
    assert!(public_card(&t, id).is_some());
    assert!(consistent(&t));
}

#[test]
fn draw_moves_the_deck_card_to_the_secret_hand() {
    let mut t = table();
    let id = new_card(&mut t, 0, Base::Basic);
    move_card(&mut t, Card::ID(id), 0, Zone::Deck).expect("the move succeeds");
    let mut random = StdRng::seed_from_u64(3);
    let (mut machine, mut step) = DrawCards::start(&mut t.game, 0, 1, &mut random);
    let drawn = loop {
        match step {
            Step::Reveal { effects, player, query } => {
                perform(&mut t, effects);
                let a = answer(&t, player, &query);
                step = machine.resume(&mut t.game, a);
            }
            Step::Done { effects, result } => {
                perform(&mut t, effects);
                break result;
            }
            Step::Failed { .. } => panic!("the draw failed"),
        }
    };
    assert_eq!(drawn.len(), 1);
    assert!(drawn[0].id().is_none(), "the drawn card stays secret");
    assert_eq!(t.game.state.player_cards(0).deck, 0);
    assert_eq!(t.secrets[0].hand, vec![Some(id)]);
    assert!(consistent(&t));
}

#[test]
fn copy_of_a_public_card_is_public() {
    let mut t = table();
    let id = new_card(&mut t, 0, Base::Basic);
    let (_machine, step) = CopyCard::start(&mut t.game, Card::ID(id), false);
    let copy = match step {
        Step::Done { effects, result } => {
            perform(&mut t, effects);
            result
        }
        _ => panic!("a public copy finishes at once"),
    };
    assert_eq!(copy.id(), Some(InstanceID::from_raw(1)));
    assert_eq!(t.game.state.player_cards(0).limbo.len(), 2);
    assert!(consistent(&t));
}

#[test]
fn copy_of_a_secret_card_stays_secret() {
    let mut t = table();
    let id = new_card(&mut t, 0, Base::Basic);
    move_card(&mut t, Card::ID(id), 0, Zone::Deck).expect("the move succeeds");
    let (mut machine, mut step) = CopyCard::start(&mut t.game, Card::ID(id), false);
    let copy = loop {
        match step {
            Step::Reveal { effects, player, query } => {
                perform(&mut t, effects);
                let a = answer(&t, player, &query);
                step = machine.resume(&mut t.game, a);
            }
            Step::Done { effects, result } => {
                perform(&mut t, effects);
                break result;
            }
            Step::Failed { .. } => panic!("the copy failed"),
        }
    };
    assert!(matches!(copy, Card::Pointer(p) if p.player() == 0));
    assert_eq!(t.game.state.instances(), 3);
    assert!(consistent(&t));
}

#[test]
fn reset_public_card_restores_its_attachment() {
    let mut t = table();
    let id = new_card(&mut t, 0, Base::WithAttachment);
    let attachment = public_card(&t, id).unwrap().attachment.unwrap();
    move_card(&mut t, Card::ID(attachment), 0, Zone::Dust { public: true }).expect("dusted");
    assert_eq!(public_card(&t, id).unwrap().attachment, None);
    let (_machine, step) = ResetCard::start(&mut t.game, Card::ID(id));
    match step {
        Step::Done { effects, .. } => perform(&mut t, effects),
        _ => panic!("a public reset finishes at once"),
    }
    let card = public_card(&t, id).unwrap();
    assert!(card.attachment.is_some());
    assert_ne!(card.attachment, Some(attachment));
    assert!(consistent(&t));
}

#[test]
fn reveal_parent_of_a_public_attachment() {
    let mut t = table();
    let id = new_card(&mut t, 0, Base::WithAttachment);
    let attachment = public_card(&t, id).unwrap().attachment.unwrap();
    let (_machine, step) = RevealParent::start(&mut t.game, Card::ID(attachment));
    match step {
        Step::Done { result, .. } => assert_eq!(result.and_then(|c| c.id()), Some(id)),
        _ => panic!("a public parent is found at once"),
    }
    let (_machine, step) = RevealParent::start(&mut t.game, Card::ID(id));
    match step {
        Step::Done { result, .. } => assert!(result.is_none()),
        _ => panic!("a public card without parent is settled at once"),
    }
}

#[test]
fn move_cards_moves_each_card() {
    let mut t = table();
    let a = new_card(&mut t, 1, Base::Basic);
    let b = new_card(&mut t, 1, Base::Basic);
    let (_machine, step) = MoveCards::start(&mut t.game.state, vec![Card::ID(a), Card::ID(b)], 1, Zone::Graveyard);
    match step {
        Step::Done { effects, result } => {
            perform(&mut t, effects);
            assert_eq!(result.len(), 2);
        }
        _ => panic!("public moves finish at once"),
    }
    assert_eq!(t.game.state.player_cards(1).graveyard, vec![a, b]);
    assert!(consistent(&t));
}

#[test]
fn modify_public_card_logs_the_change() {
    let mut t = table();
    let id = new_card(&mut t, 0, Base::Basic);
    let (card, effects) = t
        .game
        .modify_card(id, |info| info.instance.state.n = 5)
        .expect("a public card can be modified");
    perform(&mut t, effects);
    assert_eq!(card.id(), Some(id));
    assert_eq!(public_card(&t, id).unwrap().state.n, 5);
    assert!(matches!(t.public_log.last(), Some(CardEvent::ModifyCard { .. })));
}

#[test]
fn ok_rejects_a_deck_size_mismatch() {
    let mut t = table();
    t.game.state.player_cards[0].deck = 1;
    let secrets = [Some(&t.secrets[0]), Some(&t.secrets[1])];
    assert!(t.game.state.ok(&secrets).is_err());
}

#[test]
fn ok_rejects_a_pointer_out_of_bounds() {
    let mut t = table();
    t.secrets[1].new_pointer(InstanceID::from_raw(3));
    assert!(!consistent(&t));
}

#[test]
fn moved_card_lands_last_in_the_graveyard() {
    let mut t = table();
    let a = new_card(&mut t, 0, Base::Basic);
    let b = new_card(&mut t, 0, Base::Basic);
    move_card(&mut t, Card::ID(a), 0, Zone::Graveyard).expect("the move succeeds");
    move_card(&mut t, Card::ID(b), 0, Zone::Graveyard).expect("the move succeeds");
    assert_eq!(t.game.state.player_cards(0).graveyard, vec![a, b]);
    assert!(consistent(&t));
}

#[test]
fn attaching_to_a_public_parent_sets_its_attachment() {
    let mut t = table();
    let parent = new_card(&mut t, 0, Base::Basic);
    let child = new_card(&mut t, 1, Base::Basic);
    move_card(&mut t, Card::ID(parent), 0, Zone::Field).expect("the move succeeds");
    let (from, revealed) = move_card(&mut t, Card::ID(child), 0, Zone::Attachment { parent: Card::ID(parent) })
        .expect("the attachment succeeds");
    assert_eq!(revealed, Some(child));
    assert_eq!(from.player, 1);
    let p = public_card(&t, parent).unwrap();
    assert_eq!(p.attachment, Some(child));
    assert_eq!(p.state.attached, 1);
    assert!(t.game.state.player_cards(1).limbo.is_empty());
    assert!(consistent(&t));
}

#[test]
fn modify_card_refuses_a_card_in_a_secret() {
    let mut t = table();
    let id = new_card(&mut t, 0, Base::Basic);
    move_card(&mut t, Card::ID(id), 0, Zone::Deck).expect("the move succeeds");
    assert!(t.game.modify_card(id, |info| info.instance.state.n = 5).is_none());
    assert!(t.game.change_base_card(id, Base::WithAttachment).is_none());
    assert!(t.game.modify_card(InstanceID::from_raw(9), |info| info.instance.state.n = 5).is_none());
}

#[test]
fn change_base_card_keeps_the_card_where_it_is() {
    let mut t = table();
    let id = new_card(&mut t, 1, Base::Basic);
    move_card(&mut t, Card::ID(id), 1, Zone::Field).expect("the move succeeds");
    let effects = t.game.change_base_card(id, Base::Attachment).expect("a public card can change kind");
    perform(&mut t, effects);
    let card = public_card(&t, id).unwrap();
    assert_eq!(card.base, Base::Attachment);
    assert_eq!(card.attachment, None);
    assert_eq!(t.game.state.player_cards(1).field, vec![id]);
    assert!(consistent(&t));
}

#[test]
fn fold_sums_public_and_secret_cards() {
    let mut t = table();
    let a = new_card(&mut t, 0, Base::Basic);
    let b = new_card(&mut t, 0, Base::Basic);
    let (_, effects) = t.game.modify_card(a, |info| info.instance.state.n = 2).expect("a is public");
    perform(&mut t, effects);
    let (_, effects) = t.game.modify_card(b, |info| info.instance.state.n = 5).expect("b is public");
    perform(&mut t, effects);
    move_card(&mut t, Card::ID(b), 0, Zone::Deck).expect("the move succeeds");
    let map = |info: CardInfo<Game>| info.instance.state.n;
    let fold = |acc: u32, v: &u32| acc + *v;
    let cards = vec![Card::ID(a), Card::ID(b)];
    let plan = t.game.reveal_from_cards_fold(&cards, &map, 0u32, &fold).expect("the cards can be sorted");
    assert_eq!(plan.accumulated, 2);
    assert_eq!(plan.first_player_cards.len(), 1);
    assert_eq!(plan.first_player_cards[0].id(), Some(b));
    assert!(plan.second_player_cards.is_empty());
    assert_eq!(plan.public_values.len(), 1);
    assert_eq!(plan.public_values[0].0, a);
    let total = t.secrets[0].fold_cards(&plan.first_player_cards, &plan.public_values, plan.accumulated, &map, &fold);
    assert_eq!(total, Some(7));
    assert_eq!(t.secrets[1].fold_cards(&plan.first_player_cards, &plan.public_values, 0, &map, &fold), None);
    let out_of_range = vec![Card::ID(InstanceID::from_raw(9))];
    assert!(t.game.reveal_from_cards_fold(&out_of_range, &map, 0u32, &fold).is_none());
}

#[test]
fn moving_a_card_with_its_attachment_between_piles_stays_consistent() {
    let mut t = table();
    let id = new_card(&mut t, 0, Base::WithAttachment);
    let attachment = InstanceID::from_raw(1);
    assert!(consistent(&t));
    move_card(&mut t, Card::ID(id), 1, Zone::Graveyard).expect("the move succeeds");
    assert_eq!(t.game.state.player_cards(1).graveyard, vec![id]);
    assert!(t.game.state.player_cards(0).limbo.is_empty());
    assert_eq!(public_card(&t, id).unwrap().attachment, Some(attachment));
    let location = t.game.state.location(attachment);
    assert_eq!(location.player, 1);
    assert!(consistent(&t));
    move_card(&mut t, Card::ID(id), 0, Zone::Casting).expect("the move succeeds");
    assert_eq!(t.game.state.player_cards(0).casting, vec![id]);
    assert!(consistent(&t));
}

#[test]
fn shuffling_decks_on_insert_stays_consistent() {
    let mut t = table();
    t.game = CardGame::new(GameState::new(Game, true));
    let a = new_card(&mut t, 0, Base::Basic);
    let b = new_card(&mut t, 0, Base::Basic);
    let c = new_card(&mut t, 0, Base::Basic);
    for id in [a, b, c] {
        move_card(&mut t, Card::ID(id), 0, Zone::Deck).expect("the move succeeds");
        assert!(consistent(&t));
    }
    assert_eq!(t.game.state.player_cards(0).deck, 3);
    let mut deck = t.secrets[0].deck.clone();
    deck.sort_by_key(|i| i.0);
    assert_eq!(deck, vec![a, b, c]);
}

#[test]
fn public_copy_of_a_plain_card_logs_nothing() {
    let mut t = table();
    let id = new_card(&mut t, 0, Base::Basic);
    let (copy, effects) = t.game.copy_public_card(id, false, 4).expect("the copy succeeds");
    assert_eq!(copy, InstanceID::from_raw(1));
    assert!(effects.is_empty());
    assert_eq!(t.game.state.player_cards(0).limbo, vec![id, copy]);
    assert_eq!(public_card(&t, copy).unwrap().attachment, None);
    perform(&mut t, effects);
    assert!(consistent(&t));
}

#[test]
fn public_reset_of_a_plain_card_succeeds() {
    let mut t = table();
    let id = new_card(&mut t, 0, Base::Basic);
    let effects = t.game.reset_public_card(id).expect("the reset succeeds");
    perform(&mut t, effects);
    assert_eq!(public_card(&t, id).unwrap().state, Counter { n: 0, attached: 0 });
    assert!(consistent(&t));
}

#[test]
fn public_move_logs_the_moved_instance() {
    let mut t = table();
    let id = new_card(&mut t, 0, Base::Basic);
    let (_machine, step) = CardMove::start(&mut t.game.state, Card::ID(id), 1, Zone::Graveyard);
    let effects = match step {
        Step::Done { effects, result } => {
            assert!(result.is_ok());
            effects
        }
        _ => panic!("a public move finishes at once"),
    };
    let logged = effects.iter().any(|e| match e {
        Effect::MutateOrLog { event: CardEvent::MoveCard { instance: Some((i, _)), to, .. }, .. } => {
            i.id == id && to.player == 1 && matches!(to.location.0, Zone::Graveyard)
        }
        _ => false,
    });
    assert!(logged);
    perform(&mut t, effects);
    assert!(consistent(&t));
}

#[test]
fn attaching_in_limbo_finishes_at_once() {
    let mut t = table();
    let parent = new_card(&mut t, 0, Base::Basic);
    let child = new_card(&mut t, 0, Base::Basic);
    let (_machine, step) = CardMove::start(&mut t.game.state, Card::ID(child), 0, Zone::Attachment { parent: Card::ID(parent) });
    match step {
        Step::Done { effects, result } => {
            assert!(result.is_ok());
            perform(&mut t, effects);
        }
        _ => panic!("attaching a public card to a public parent finishes at once"),
    }
    assert_eq!(public_card(&t, parent).unwrap().attachment, Some(child));
    assert!(consistent(&t));
}

#[test]
fn ok_ready_accepts_a_readable_game_and_refuses_a_stray_secret_id() {
    let mut t = table();
    let id = new_card(&mut t, 0, Base::Basic);
    move_card(&mut t, Card::ID(id), 0, Zone::Deck).expect("the move succeeds");
    {
        let secrets = [Some(&t.secrets[0]), Some(&t.secrets[1])];
        assert!(t.game.state.ok_ready(&secrets));
    }
    t.game.state.instances.clear();
    t.game.state.player_cards[0].deck = 0;
    let secrets = [Some(&t.secrets[0]), Some(&t.secrets[1])];
    assert!(!t.game.state.ok_ready(&secrets));
}

#[test]
fn moving_an_attachment_off_its_parent_detaches_it() {
    let mut t = table();
    let parent = new_card(&mut t, 0, Base::WithAttachment);
    let attachment = public_card(&t, parent).unwrap().attachment.unwrap();
    let (_machine, step) = CardMove::start(&mut t.game.state, Card::ID(attachment), 1, Zone::Graveyard);
    match step {
        Step::Done { effects, result } => {
            assert!(result.is_ok());
            perform(&mut t, effects);
        }
        _ => panic!("moving a public attachment off a public parent finishes at once"),
    }
    assert_eq!(public_card(&t, parent).unwrap().attachment, None);
    assert_eq!(t.game.state.player_cards(1).graveyard, vec![attachment]);
    assert!(consistent(&t));
}

fn finish_copy(t: &mut Table, id: InstanceID, deep: bool) -> InstanceID {
    let (_machine, step) = CopyCard::start(&mut t.game, Card::ID(id), deep);
    match step {
        Step::Done { effects, result } => {
            perform(t, effects);
            result.id().expect("a public copy is named by its ID")
        }
        _ => panic!("a public copy finishes at once"),
    }
}

#[test]
fn deep_copy_copies_the_attachment() {
    let mut t = table();
    let id = new_card(&mut t, 0, Base::WithAttachment);
    let copy = finish_copy(&mut t, id, true);
    assert_eq!(copy, InstanceID::from_raw(3));
    let attachment = public_card(&t, copy).unwrap().attachment.expect("the copy has an attachment");
    assert_eq!(attachment, InstanceID::from_raw(2));
    assert_eq!(public_card(&t, attachment).unwrap().base, Base::Attachment);
    assert!(consistent(&t));
}

#[test]
fn shallow_copy_gets_a_new_attachment_of_its_kind() {
    let mut t = table();
    let id = new_card(&mut t, 0, Base::WithAttachment);
    let attachment = public_card(&t, id).unwrap().attachment.unwrap();
    move_card(&mut t, Card::ID(attachment), 0, Zone::Graveyard).expect("detached");
    let copy = finish_copy(&mut t, id, false);
    assert_eq!(public_card(&t, copy).unwrap().attachment, Some(InstanceID::from_raw(2)));
    assert_eq!(public_card(&t, InstanceID::from_raw(2)).unwrap().base, Base::Attachment);
    assert_eq!(t.game.state.player_cards(0).limbo.last(), Some(&copy));
    assert!(consistent(&t));
}

#[test]
fn reset_dusts_an_attachment_its_kind_does_not_come_with() {
    let mut t = table();
    let id = new_card(&mut t, 0, Base::Basic);
    let extra = new_card(&mut t, 0, Base::Attachment);
    move_card(&mut t, Card::ID(extra), 0, Zone::Attachment { parent: Card::ID(id) }).expect("attached");
    assert_eq!(public_card(&t, id).unwrap().attachment, Some(extra));
    let (_machine, step) = ResetCard::start(&mut t.game, Card::ID(id));
    match step {
        Step::Done { effects, .. } => perform(&mut t, effects),
        _ => panic!("a public reset finishes at once"),
    }
    assert_eq!(t.game.state.player_cards(0).dust.last(), Some(&extra));
    assert_eq!(public_card(&t, id).unwrap().attachment, None);
    assert!(consistent(&t));
}

#[test]
fn modifying_a_card_leaves_the_other_zones_alone() {
    let mut t = table();
    let kept = new_card(&mut t, 0, Base::Basic);
    move_card(&mut t, Card::ID(kept), 0, Zone::Graveyard).expect("moved");
    let id = new_card(&mut t, 0, Base::Basic);
    move_card(&mut t, Card::ID(id), 0, Zone::Field).expect("moved");
    let before = t.game.state.player_cards(0).clone();
    let other = t.game.state.player_cards(1).clone();
    let (_, effects) = t.game.modify_card(id, |info| info.instance.state.n = 3).expect("modified");
    perform(&mut t, effects);
    assert_eq!(t.game.state.player_cards(0).graveyard, before.graveyard);
    assert_eq!(t.game.state.player_cards(0).limbo, before.limbo);
    assert_eq!(t.game.state.player_cards(0).field, before.field);
    assert_eq!(t.game.state.player_cards(1).graveyard, other.graveyard);
    assert!(consistent(&t));
}

#[test]
fn field_is_kept_in_the_game_order() {
    let mut t = table();
    let a = new_card(&mut t, 0, Base::Basic);
    let b = new_card(&mut t, 0, Base::Basic);
    let c = new_card(&mut t, 0, Base::Basic);
    move_card(&mut t, Card::ID(c), 0, Zone::Field).expect("moved");
    move_card(&mut t, Card::ID(a), 0, Zone::Field).expect("moved");
    move_card(&mut t, Card::ID(b), 0, Zone::Field).expect("moved");
    assert_eq!(t.game.state.player_cards(0).field, vec![a, b, c]);
    assert!(consistent(&t));
}
