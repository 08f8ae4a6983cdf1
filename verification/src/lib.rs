//! Card movement simulation for two-player card games with public and secret
//! state: zones, instances, opaque pointers, and the rules that move cards
//! between them while keeping each player's secrets hidden.

use vstd::prelude::*;

pub mod base;
pub mod card;
pub mod card_event;
pub mod attach_card;
pub mod card_batches;
pub mod card_game;
pub mod consistency;
pub mod copy_card;
pub mod creation_consistency;
pub mod modify_card;
pub mod modify_consistency;
pub mod move_card;
pub mod card_info;
pub mod game_public;
pub mod game_state;
pub mod card_instance;
pub mod card_location;
pub mod card_move;
pub mod card_lookup;
pub mod error;
pub mod game;
pub mod instance_id;
pub mod laws;
pub mod opaque_pointer;
pub mod pile_move;
pub mod player_cards;
pub mod player_secret;
pub mod random;
pub mod reset_card;
pub mod card_queries;
pub mod reveal_from;
pub mod reveal_laws;
pub mod reveal_parent;
pub mod secret_cards;
pub mod secret_entry;
pub mod secret_move;
pub mod secret_pointers;
pub mod secret_protocol;
pub mod seq_util;
pub mod zone;

pub use base::{Action, AnySecretData, BaseCard, CardState, Player, Secret, State};
pub use card::Card;
pub use card_event::CardEvent;
pub use card_info::{CardInfo, CardInfoMut};
pub use game_state::{GameState, InstanceOrPlayer};
pub use card_instance::CardInstance;
pub use card_location::{CardLocation, ExactCardLocation};
pub use instance_id::InstanceID;
pub use opaque_pointer::OpaquePointer;
pub use player_cards::PlayerCards;
pub use player_secret::PlayerSecret;
pub use seq_util::{first_index, is_first_index};
pub use zone::Zone;
pub use game::CardGame;
pub use card_game::{Effect, Step};
pub use secret_cards::{SecretCardsInfo, SecretCardsWithFakesInfo, SecretPointersInfo};
pub use secret_protocol::{SecretAnswer, SecretChange, SecretQuery};

verus! {

} // verus!
