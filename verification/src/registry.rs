//! Callbacks kept in the Lua registry.

use vstd::prelude::*;

verus! {

/// `mlua::Lua`, a Lua state.
#[verifier::external_type_specification]
#[verifier::external_body]
pub struct ExLua(mlua::Lua);

/// `mlua::RegistryKey`, the key of a value in the registry of a Lua state.
#[verifier::external_type_specification]
#[verifier::external_body]
pub struct ExRegistryKey(mlua::RegistryKey);

/// The value of `key` has been removed from the registry of `lua` (`removed`), or the removal was
/// refused because the key belongs to another state.
pub uninterp spec fn registry_removal_outcome(
    lua: mlua::Lua,
    key: mlua::RegistryKey,
    removed: bool,
) -> bool;

/// Calls `mlua::Lua::remove_registry_value`, which drops the value of `key` from the registry of
/// `lua`, or refuses a key of another state.  The contract says that the result is the outcome of
/// removing this key from this state.
#[verifier::external_body]
pub(crate) fn remove_registry_value(lua: &mlua::Lua, key: mlua::RegistryKey) -> (removed: bool)
    ensures
        registry_removal_outcome(*lua, key, removed),
{
    lua.remove_registry_value(key).is_ok()
}

} // verus!
