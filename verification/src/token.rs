//! Delivery tokens of the coordinator.
use crate::checkpoint::{HybridSource, HybridTokenKind};
use crate::error::SubscriberError;
use crate::words::Epoch;
use vstd::prelude::*;
use vstd::slice::slice_subrange;

verus! {

/// The bytes that a delivery token starts with: `EFCHYB2` and a zero byte.
pub open spec fn token_magic() -> Seq<u8> {
    seq![0x45u8, 0x46, 0x43, 0x48, 0x59, 0x42, 0x32, 0x00]
}

/// A delivery token: magic, epoch, source, kind, and what the source or the
/// coordinator put in.
pub open spec fn wrapped(
    epoch: Epoch,
    source: HybridSource,
    kind: HybridTokenKind,
    inner: Seq<u8>,
) -> Seq<u8> {
    token_magic() + epoch.bytes() + seq![source.spec_tag(), kind.spec_tag()] + inner
}

/// The parts of a delivery token.
#[derive(Debug, PartialEq, Eq)]
pub struct UnwrappedToken {
    pub epoch: Epoch,
    pub source: HybridSource,
    pub kind: HybridTokenKind,
    pub inner: Vec<u8>,
}

/// The parts of a delivery token over sequences.
pub struct UnwrappedView {
    pub epoch: Epoch,
    pub source: HybridSource,
    pub kind: HybridTokenKind,
    pub inner: Seq<u8>,
}

impl View for UnwrappedToken {
    type V = UnwrappedView;

    open spec fn view(&self) -> UnwrappedView {
        UnwrappedView {
            epoch: self.epoch,
            source: self.source,
            kind: self.kind,
            inner: self.inner@,
        }
    }
}

/// What taking a delivery token apart gives.
pub open spec fn unwrapped(token: Seq<u8>) -> Result<UnwrappedView, SubscriberError> {
    if token.len() < 26 || token.take(8) != token_magic() {
        Err(SubscriberError::Provider("invalid hybrid delivery-token envelope"))
    } else if token[24] != 1 && token[24] != 2 {
        Err(SubscriberError::Provider("invalid hybrid delivery-token source"))
    } else if token[25] != 1 && token[25] != 2 {
        Err(SubscriberError::Provider("invalid hybrid delivery-token kind"))
    } else {
        Ok(
            UnwrappedView {
                epoch: Epoch::of_bytes(token.subrange(8, 24)),
                source: if token[24] == 1 {
                    HybridSource::Historical
                } else {
                    HybridSource::Live
                },
                kind: if token[25] == 1 {
                    HybridTokenKind::Forwarded
                } else {
                    HybridTokenKind::Synthetic
                },
                inner: token.skip(26),
            },
        )
    }
}

/// Puts a delivery token together.
pub fn wrap_token(epoch: Epoch, source: HybridSource, kind: HybridTokenKind, token: &[u8]) -> (r: Vec<
    u8,
>)
    ensures
        r@ == wrapped(epoch, source, kind, token@),
{
    let mut bytes: Vec<u8> = vec![0x45, 0x46, 0x43, 0x48, 0x59, 0x42, 0x32, 0x00];
    assert(bytes@ =~= token_magic());
    let mut middle: Vec<u8> = epoch.to_vec();
    bytes.append(&mut middle);
    bytes.push(source.tag());
    bytes.push(kind.tag());
    bytes.extend_from_slice(token);
    assert(bytes@ =~= wrapped(epoch, source, kind, token@));
    bytes
}

/// Takes a delivery token apart.
pub fn unwrap_token(token: &[u8]) -> (r: Result<UnwrappedToken, SubscriberError>)
    ensures
        match r {
            Ok(parts) => unwrapped(token@) == Ok::<_, SubscriberError>(parts@),
            Err(e) => unwrapped(token@) == Err::<UnwrappedView, _>(e),
        },
{
    let magic: bool = token.len() >= 26 && token[0] == 0x45 && token[1] == 0x46 && token[2] == 0x43
        && token[3] == 0x48 && token[4] == 0x59 && token[5] == 0x42 && token[6] == 0x32 && token[7]
        == 0x00;
    proof {
        if magic {
            assert(token@.take(8) =~= token_magic());
        } else if token@.len() >= 26 && token@.take(8) == token_magic() {
            let m = token_magic();
            assert forall|i: int| 0 <= i < 8 implies token@[i] == m[i] by {
                assert(token@.take(8)[i] == m[i]);
            }
            assert(token@[0] == m[0] && token@[1] == m[1] && token@[2] == m[2] && token@[3] == m[3]
                && token@[4] == m[4] && token@[5] == m[5] && token@[6] == m[6] && token@[7]
                == m[7]);
        }
    }
    if !magic {
        return Err(SubscriberError::Provider("invalid hybrid delivery-token envelope"));
    }
    let epoch: Epoch = Epoch::from_slice(slice_subrange(token, 8, 24));
    let source: HybridSource = HybridSource::from_tag(token[24])?;
    let kind: HybridTokenKind = HybridTokenKind::from_tag(token[25])?;
    let rest: &[u8] = slice_subrange(token, 26, token.len());
    assert(rest@ =~= token@.skip(26));
    Ok(UnwrappedToken { epoch, source, kind, inner: crate::model::copy_bytes(rest) })
}

/// Taking a token apart gives back what it was put together from.
pub proof fn law_token_round_trip(
    epoch: Epoch,
    source: HybridSource,
    kind: HybridTokenKind,
    inner: Seq<u8>,
)
    ensures
        unwrapped(wrapped(epoch, source, kind, inner)) == Ok::<_, SubscriberError>(
            UnwrappedView { epoch, source, kind, inner },
        ),
{
    let t = wrapped(epoch, source, kind, inner);
    epoch.lemma_of_bytes();
    assert(t.take(8) =~= token_magic());
    assert(t.subrange(8, 24) =~= epoch.bytes());
    assert(t[24] == source.spec_tag() && t[25] == kind.spec_tag());
    assert(t.skip(26) =~= inner);
}

/// A token that can be taken apart is exactly the one that its parts are put
/// together to.
pub proof fn law_token_is_canonical(token: Seq<u8>)
    ensures
        match unwrapped(token) {
            Ok(p) => token == wrapped(p.epoch, p.source, p.kind, p.inner),
            Err(_) => true,
        },
{
    if let Ok(p) = unwrapped(token) {
        Epoch::lemma_bytes_of(token.subrange(8, 24));
        assert(token =~= wrapped(p.epoch, p.source, p.kind, p.inner));
    }
}

} // verus!
