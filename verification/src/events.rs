//! The trigger-event taxonomy: the closed classification tables that map
//! integer codes found in the frame stream to named gameplay events.
//!
//! The top-level discriminator dispatches a raw code by numeric range:
//! `1` is a jump, `3` a landing, `2000` a bullet impact, `10..=20` a bullet
//! discharge keyed by `code - 10`, and `1000..=1190` a discard-ability use
//! keyed by `code - 1000` against a fixed, non-contiguous table of steps.
//! Anything else, including in-range codes whose offset names no entry,
//! is a decode error.

use vstd::prelude::*;
use crate::errors::DecodeError;

verus! {

/// An ability spent by a "discard" trigger event, keyed by the step value
/// `code - 1000` of the raw event code.
#[derive(Clone, Copy, Debug, PartialEq, Eq, Structural)]
pub enum DiscardAbility {
    Jump,
    Flap,
    Bomb,
    Freeze,
    Dash,
    Stomp,
    Telefrag,
    Kickback,
    Stun,
    Consumable,
    ShieldBash,
    Rocket,
    Resurrect,
    PoisonBoost,
    ZipLine,
    Mine,
    Rapture,
    Miracle,
    Backfire,
    Fireball,
}

/// A bullet kind fired by a "bullet" trigger event, keyed by the offset
/// `code - 10` of the raw event code.
#[derive(Clone, Copy, Debug, PartialEq, Eq, Structural)]
pub enum BulletType {
    Swipe,
    SingleShot,
    Scatter,
    Rocket,
    Mine,
}

/// The discrete gameplay event attached to one frame record.  Exactly one
/// event is attached per frame; a frame without an event code carries
/// `NoEvent`.
#[derive(Clone, Copy, Debug, PartialEq, Eq, Structural)]
pub enum TriggerEvent {
    NoEvent,
    Jump,
    Land,
    Bullet(BulletType),
    Discard(DiscardAbility),
    BulletHit,
}

/// The discard-ability table: the listed step values `code - 1000` and the
/// ability each names.  An in-range but unlisted step names nothing.
pub open spec fn spec_discard_of(i: int) -> Option<DiscardAbility> {
    if i == 1010 { Some(DiscardAbility::Jump) }
    else if i == 1015 { Some(DiscardAbility::Flap) }
    else if i == 1020 { Some(DiscardAbility::Bomb) }
    else if i == 1030 { Some(DiscardAbility::Freeze) }
    else if i == 1040 { Some(DiscardAbility::Dash) }
    else if i == 1050 { Some(DiscardAbility::Stomp) }
    else if i == 1060 { Some(DiscardAbility::Telefrag) }
    else if i == 1070 { Some(DiscardAbility::Kickback) }
    else if i == 1080 { Some(DiscardAbility::Stun) }
    else if i == 1090 { Some(DiscardAbility::Consumable) }
    else if i == 1100 { Some(DiscardAbility::ShieldBash) }
    else if i == 1110 { Some(DiscardAbility::Rocket) }
    else if i == 1120 { Some(DiscardAbility::Resurrect) }
    else if i == 1130 { Some(DiscardAbility::PoisonBoost) }
    else if i == 1140 { Some(DiscardAbility::ZipLine) }
    else if i == 1150 { Some(DiscardAbility::Mine) }
    else if i == 1160 { Some(DiscardAbility::Rapture) }
    else if i == 1170 { Some(DiscardAbility::Miracle) }
    else if i == 1180 { Some(DiscardAbility::Backfire) }
    else if i == 1190 { Some(DiscardAbility::Fireball) }
    else { None }
}

/// The bullet-type table: codes `10..=14` name the five bullet kinds in
/// order; any other code names nothing.
pub open spec fn spec_bullet_of(i: int) -> Option<BulletType> {
    if i == 10 { Some(BulletType::Swipe) }
    else if i == 11 { Some(BulletType::SingleShot) }
    else if i == 12 { Some(BulletType::Scatter) }
    else if i == 13 { Some(BulletType::Rocket) }
    else if i == 14 { Some(BulletType::Mine) }
    else { None }
}

/// The top-level event classification by numeric range.
pub open spec fn spec_classify_event(i: int) -> Result<TriggerEvent, DecodeError> {
    if i == 1 { Ok(TriggerEvent::Jump) }
    else if i == 3 { Ok(TriggerEvent::Land) }
    else if 10 <= i && i <= 20 {
        match spec_bullet_of(i) {
            Some(b) => Ok(TriggerEvent::Bullet(b)),
            None => Err(DecodeError::InvalidBulletType),
        }
    }
    else if 1000 <= i && i <= 1190 {
        match spec_discard_of(i) {
            Some(a) => Ok(TriggerEvent::Discard(a)),
            None => Err(DecodeError::InvalidDiscardAbility),
        }
    }
    else if i == 2000 { Ok(TriggerEvent::BulletHit) }
    else { Err(DecodeError::UnknownTriggerEvent) }
}

impl DiscardAbility {
    /// Resolves a raw trigger-event code in the discard range to its listed
    /// ability, or fails on an in-range but unlisted step.
    pub fn from_trigger_event(i: i64) -> (r: Result<DiscardAbility, DecodeError>)
        ensures
            r == match spec_discard_of(i as int) {
                Some(a) => Ok::<DiscardAbility, DecodeError>(a),
                None => Err::<DiscardAbility, DecodeError>(DecodeError::InvalidDiscardAbility),
            },
    {
        let res = match i {
            1010 => DiscardAbility::Jump,
            1015 => DiscardAbility::Flap,
            1020 => DiscardAbility::Bomb,
            1030 => DiscardAbility::Freeze,
            1040 => DiscardAbility::Dash,
            1050 => DiscardAbility::Stomp,
            1060 => DiscardAbility::Telefrag,
            1070 => DiscardAbility::Kickback,
            1080 => DiscardAbility::Stun,
            1090 => DiscardAbility::Consumable,
            1100 => DiscardAbility::ShieldBash,
            1110 => DiscardAbility::Rocket,
            1120 => DiscardAbility::Resurrect,
            1130 => DiscardAbility::PoisonBoost,
            1140 => DiscardAbility::ZipLine,
            1150 => DiscardAbility::Mine,
            1160 => DiscardAbility::Rapture,
            1170 => DiscardAbility::Miracle,
            1180 => DiscardAbility::Backfire,
            1190 => DiscardAbility::Fireball,
            _ => { return Err(DecodeError::InvalidDiscardAbility); },
        };
        Ok(res)
    }
}

impl BulletType {
    /// Resolves a raw trigger-event code in the bullet range to its bullet
    /// kind, or fails on a code past the five listed kinds.
    pub fn from_trigger_event(i: i64) -> (r: Result<BulletType, DecodeError>)
        ensures
            r == match spec_bullet_of(i as int) {
                Some(b) => Ok::<BulletType, DecodeError>(b),
                None => Err::<BulletType, DecodeError>(DecodeError::InvalidBulletType),
            },
    {
        let res = match i {
            10 => BulletType::Swipe,
            11 => BulletType::SingleShot,
            12 => BulletType::Scatter,
            13 => BulletType::Rocket,
            14 => BulletType::Mine,
            _ => { return Err(DecodeError::InvalidBulletType); },
        };
        Ok(res)
    }
}

/// Classifies a raw trigger-event code into its named event, exactly as
/// `spec_classify_event` dispatches it by numeric range.
pub fn classify_event(i: i64) -> (r: Result<TriggerEvent, DecodeError>)
    ensures
        r == spec_classify_event(i as int),
{
    if i == 1 {
        Ok(TriggerEvent::Jump)
    } else if i == 3 {
        Ok(TriggerEvent::Land)
    } else if 10 <= i && i <= 20 {
        match BulletType::from_trigger_event(i) {
            Ok(b) => Ok(TriggerEvent::Bullet(b)),
            Err(e) => Err(e),
        }
    } else if 1000 <= i && i <= 1190 {
        match DiscardAbility::from_trigger_event(i) {
            Ok(a) => Ok(TriggerEvent::Discard(a)),
            Err(e) => Err(e),
        }
    } else if i == 2000 {
        Ok(TriggerEvent::BulletHit)
    } else {
        Err(DecodeError::UnknownTriggerEvent)
    }
}

} // verus!
