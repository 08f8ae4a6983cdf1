//! What a card becomes when a secret hands it over to the public state.

use vstd::prelude::*;

use crate::card_game::{MoveCard, MoveResult, Step};
use crate::card_instance::copy_of;
use crate::game_state::InstanceOrPlayer;
use crate::attach_card::{attach_revealed, AttachCard};
use crate::move_card::move_resumed;
use crate::secret_protocol::{SecretAnswer, SecretQuery};
use crate::{Card, GameState, InstanceID, PlayerSecret, State};

verus! {

/// A card that a secret hands over for a move into the public state becomes public as the
/// instance the secret holds, kind and state included: when the secret answers the question
/// the move asks about a card it holds (not attached to itself), and the move resumed with
/// that answer finishes into the public state, the instance table holds at the card's ID a
/// copy (as `Clone` makes one) of the held instance, and at its attachment's ID a copy of
/// the held attachment.
pub proof fn revealed_card_is_the_held_one<S: State>(
    secret: PlayerSecret<S>,
    card: Card,
    answer: SecretAnswer<S>,
    m: MoveCard,
    before: GameState<S>,
    after: GameState<S>,
    r: Step<S, MoveResult>,
)
    requires
        secret.answered(SecretQuery::InstanceWithAttachment { card }, Some(answer)),
        secret.spec_instance(card) matches Some(h) ==> h.attachment != Some(h.id),
        m.phase is AwaitInstance,
        m.bucket is Some,
        m.to_bucket is None,
        move_resumed(m, before, after, answer, r),
        r is Done,
    ensures
        secret.spec_instance(card) is Some,
        ({
            let held = secret.spec_instance(card).unwrap();
            &&& after.instances@[held.id.0 as int] matches InstanceOrPlayer::Instance(i) && copy_of(held, i)
            &&& held.attachment matches Some(x) ==> (after.instances@[x.0 as int] matches InstanceOrPlayer::Instance(a)
                && copy_of(secret.get(x), a))
        }),
{
    let held = secret.spec_instance(card).unwrap();
    let i = answer->Instances_0.unwrap();
    assert(after.instances@[i.id.0 as int] == InstanceOrPlayer::Instance(i));
    if let Some(x) = held.attachment {
        let a = answer->Instances_1.unwrap();
        assert(after.instances@[a.id.0 as int] == InstanceOrPlayer::Instance(a));
    }
}

/// A card that a secret hands over to be attached to a public parent becomes public as the
/// instance the secret holds: when the secret answers the question the attachment asks about
/// an ID it holds, and the attachment resumed with that answer finishes, the instance table
/// holds at that ID a copy (as `Clone` makes one) of the held instance.
pub proof fn attached_card_is_the_held_one<S: State>(
    secret: PlayerSecret<S>,
    id: InstanceID,
    answer: SecretAnswer<S>,
    m: AttachCard<S>,
    r: Step<S, MoveResult>,
    after: GameState<S>,
)
    requires
        secret.answered(SecretQuery::InstanceOf { id }, Some(answer)),
        m.phase is AwaitCardInstance,
        m.card_bucket is Some,
        m.parent_bucket is None,
        m.parent_id != Some(id),
        attach_revealed(m, answer, r, after),
        r is Done,
    ensures
        secret.has(id),
        after.instances@[id.0 as int] matches InstanceOrPlayer::Instance(i) && copy_of(secret.get(id), i),
{
}

} // verus!
