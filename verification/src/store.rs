//! Storing a converted record. One user owns at most one record; the caller
//! holds that record slot and hands it in together with the engine's output.
//! A store either packs and writes the whole vault ciphertext or leaves the
//! slot exactly as it was — never a partial write.

use crate::codec::{
    encode_output, engine_output_ok, vault_matches_output, ConversionError, EngineValue,
    SharedCiphertext,
};
use crate::vault::{MXEWrapper, UserProfile};
use vstd::prelude::*;

verus! {

/// Packs the engine's output and stores it in the user's record slot:
/// created on first use, replaced in place afterwards, so two calls in
/// sequence still leave exactly one record. An output of the wrong shape is
/// rejected and the slot — present or absent — is left unchanged.
pub fn store_interest_profile(account: &mut Option<UserProfile>, outputs: &Vec<EngineValue>) -> (r:
    Result<(), ConversionError>)
    requires
        forall|i: int| 0 <= i < outputs@.len() ==> (#[trigger] outputs@[i]).wf(),
    ensures
        engine_output_ok(outputs@) ==> r is Ok,
        engine_output_ok(outputs@) ==> ((*final(account)) matches Some(p) && vault_matches_output(
            p.interest_profile.inner,
            outputs@,
        )),
        !engine_output_ok(outputs@) ==> r == Err::<(), ConversionError>(
            ConversionError::EngineOutputShapeError,
        ) && *final(account) == *old(account),
{
    let vault = match encode_output(outputs) {
        Ok(v) => v,
        Err(e) => {
            return Err(e);
        },
    };
    *account = Some(UserProfile { interest_profile: MXEWrapper { inner: vault } });
    Ok(())
}

/// Legacy single-field variant, kept only for backward compatibility and no
/// longer part of the forward design: it accepts the submission and leaves
/// the stored record as it was.
pub fn store_tier(account: &mut Option<UserProfile>, _encrypted_tier: &SharedCiphertext) -> (r:
    Result<(), ConversionError>)
    ensures
        r is Ok,
        *final(account) == *old(account),
{
    Ok(())
}

} // verus!
