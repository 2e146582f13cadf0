//! Room addressing: a room's network key is a deterministic function of
//! the owner's verifying key and the fixed room contract code, so any peer
//! knowing the owner's public key can reproduce it.

use vstd::prelude::*;

verus! {

/// The contract key the network host derives from a parameter block and
/// contract code.
pub uninterp spec fn contract_key_of(params: Seq<u8>, code: Seq<u8>) -> Seq<u8>;

/// Relies on `freenet_stdlib`'s `ContractInstanceId::from_params_and_code`:
/// its source hashes the contract code's hash and the parameter bytes with
/// blake3 into a 32-byte id, a pure function of the two byte strings.
#[verifier::external_body]
pub(crate) fn generate_contract_key(parameters: &[u8], code: &[u8]) -> (r: Vec<u8>)
    ensures
        r@ == contract_key_of(parameters@, code@),
        r@.len() == 32,
{
    let params = freenet_stdlib::prelude::Parameters::from(parameters.to_vec());
    let code = freenet_stdlib::prelude::ContractCode::from(code.to_vec());
    let id = freenet_stdlib::prelude::ContractInstanceId::from_params_and_code(params, code);
    id.as_bytes().to_vec()
}

/// The room's parameter block: exactly the owner's verifying key bytes.
pub fn prepare_chat_room_parameters(room_owner_vk: &[u8]) -> (r: Vec<u8>)
    ensures
        r@ == room_owner_vk@,
{
    vstd::slice::slice_to_vec(room_owner_vk)
}

/// The room's network address: the contract key of the owner's parameter
/// block under the room contract code.
pub fn owner_vk_to_contract_key(room_owner_vk: &[u8], contract_code: &[u8]) -> (r: Vec<u8>)
    ensures
        r@ == contract_key_of(room_owner_vk@, contract_code@),
        r@.len() == 32,
{
    let parameters = prepare_chat_room_parameters(room_owner_vk);
    generate_contract_key(parameters.as_slice(), contract_code)
}

} // verus!
