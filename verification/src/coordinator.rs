//! How the process ends, from how its actors ended.

use vstd::prelude::*;

verus! {

/// The actors of the pipeline, in the order in which a failure is
/// attributed.
#[derive(Clone, Copy, Debug, PartialEq, Eq)]
pub enum Actor {
    FrameSource,
    Decoder,
    TemplateSource,
    Reporter,
}

/// The failure that the process reports: that of one actor.
#[derive(Debug, PartialEq, Eq)]
pub struct ActorFailure<E> {
    pub actor: Actor,
    pub error: E,
}

/// The outcome of the process. It succeeds where every actor that ran ended
/// cleanly; a reporter that was not started counts as clean. Otherwise it
/// fails with the error of the first actor that failed, in the order frame
/// source, decoder, template source, reporter.
pub open spec fn outcome_of<E>(
    frame_source: Result<(), E>,
    decoder: Result<(), E>,
    template_source: Result<(), E>,
    reporter: Option<Result<(), E>>,
) -> Result<(), ActorFailure<E>> {
    if frame_source is Err {
        Err(ActorFailure { actor: Actor::FrameSource, error: frame_source->Err_0 })
    } else if decoder is Err {
        Err(ActorFailure { actor: Actor::Decoder, error: decoder->Err_0 })
    } else if template_source is Err {
        Err(ActorFailure { actor: Actor::TemplateSource, error: template_source->Err_0 })
    } else {
        match reporter {
            Some(Err(error)) => Err(ActorFailure { actor: Actor::Reporter, error }),
            _ => Ok(()),
        }
    }
}

/// Decides how the process ends once all its actors have ended.
pub fn process_outcome<E>(
    frame_source: Result<(), E>,
    decoder: Result<(), E>,
    template_source: Result<(), E>,
    reporter: Option<Result<(), E>>,
) -> (outcome: Result<(), ActorFailure<E>>)
    ensures
        outcome == outcome_of(frame_source, decoder, template_source, reporter),
{
    match frame_source {
        Err(error) => {
            return Err(ActorFailure { actor: Actor::FrameSource, error });
        },
        Ok(_) => {},
    }
    match decoder {
        Err(error) => {
            return Err(ActorFailure { actor: Actor::Decoder, error });
        },
        Ok(_) => {},
    }
    match template_source {
        Err(error) => {
            return Err(ActorFailure { actor: Actor::TemplateSource, error });
        },
        Ok(_) => {},
    }
    match reporter {
        Some(Err(error)) => Err(ActorFailure { actor: Actor::Reporter, error }),
        _ => Ok(()),
    }
}

/// The process fails if and only if at least one actor failed.
pub proof fn lemma_fails_iff_an_actor_failed<E>(
    frame_source: Result<(), E>,
    decoder: Result<(), E>,
    template_source: Result<(), E>,
    reporter: Option<Result<(), E>>,
)
    ensures
        outcome_of(frame_source, decoder, template_source, reporter) is Err <==> (frame_source
            is Err || decoder is Err || template_source is Err || (reporter matches Some(ended)
            && ended is Err)),
{
}

/// Without a reporter the process ends cleanly as soon as the three other
/// actors do.
pub proof fn lemma_clean_without_reporter<E>()
    ensures
        outcome_of::<E>(Ok(()), Ok(()), Ok(()), None) == Ok::<(), ActorFailure<E>>(()),
{
}

} // verus!
