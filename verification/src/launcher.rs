//! The service launcher: builds the spawn configuration for the sidecar
//! executable and completes a launch attempt against the lifecycle
//! registry.
//!
//! A launch that fails is fatal to startup: the registry is left empty
//! and the failure is handed back to abort initialization explicitly.

use vstd::prelude::*;
use vstd::slice::slice_to_vec;
use crate::bytes::dec_digits;
use crate::bytes::u16_to_dec;
use crate::registry::LifecycleRegistry;
use crate::registry::ServiceHandle;

verus! {

/// One environment variable handed to the spawned process, as key and
/// value bytes.
#[derive(PartialEq, Eq, Debug)]
pub struct EnvVar {
    pub key: Vec<u8>,
    pub value: Vec<u8>,
}

/// Everything the embedding application needs to spawn the sidecar: the
/// pre-registered executable name and the environment to inject.
#[derive(PartialEq, Eq, Debug)]
pub struct LaunchConfig {
    pub executable: String,
    pub env: Vec<EnvVar>,
}

/// The environment key under which the service learns its port.
pub open spec fn port_key() -> Seq<u8> {
    seq![80u8, 79u8, 82u8, 84u8]
}

/// The environment key under which the service learns the deployment
/// mode.
pub open spec fn mode_key() -> Seq<u8> {
    seq![78u8, 79u8, 68u8, 69u8, 95u8, 69u8, 78u8, 86u8]
}

/// Why a launch attempt failed.  Fatal to application startup.
#[derive(PartialEq, Eq, Debug)]
pub struct SpawnError {
    pub message: String,
}

/// Builds the spawn configuration: the executable, the port rendered in
/// decimal under the port key, and the mode under the mode key.
pub fn launch_config(executable: &str, port: u16, mode: &[u8]) -> (config: LaunchConfig)
    ensures
        config.executable@ == executable@,
        config.env@.len() == 2,
        config.env@[0].key@ == port_key(),
        config.env@[0].value@ == dec_digits(port as nat),
        config.env@[1].key@ == mode_key(),
        config.env@[1].value@ == mode@,
{
    let mut key_port: Vec<u8> = Vec::new();
    key_port.push(80);
    key_port.push(79);
    key_port.push(82);
    key_port.push(84);
    assert(key_port@ =~= port_key());
    let mut key_mode: Vec<u8> = Vec::new();
    key_mode.push(78);
    key_mode.push(79);
    key_mode.push(68);
    key_mode.push(69);
    key_mode.push(95);
    key_mode.push(69);
    key_mode.push(78);
    key_mode.push(86);
    assert(key_mode@ =~= mode_key());
    let mut env: Vec<EnvVar> = Vec::new();
    env.push(EnvVar { key: key_port, value: u16_to_dec(port) });
    env.push(EnvVar { key: key_mode, value: slice_to_vec(mode) });
    LaunchConfig { executable: executable.to_owned(), env }
}

/// Completes a launch attempt.  On success the handle is stored in the
/// registry — the single store of the supervisor's lifetime — and handed
/// back.  On failure nothing is stored: the registry stays empty and the
/// error aborts startup.
pub fn complete_launch(
    registry: &mut LifecycleRegistry,
    outcome: Result<ServiceHandle, SpawnError>,
) -> (result: Result<ServiceHandle, SpawnError>)
    requires
        old(registry)@ is None,
    ensures
        (outcome matches Ok(handle) ==> final(registry)@ == Some(handle) && result == Result::<
            ServiceHandle,
            SpawnError,
        >::Ok(handle)),
        (outcome matches Err(error) ==> final(registry)@ is None && result == Result::<
            ServiceHandle,
            SpawnError,
        >::Err(error)),
{
    match outcome {
        Ok(handle) => {
            registry.store(handle);
            Ok(handle)
        },
        Err(error) => Err(error),
    }
}

} // verus!