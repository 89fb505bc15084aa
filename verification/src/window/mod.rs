//! Where the focused application comes from: the compositor providers, the
//! events each one sends, and which one a session uses.

pub mod hyprland;
pub mod null;
pub mod sway;

use vstd::prelude::*;

verus! {

/// The compositors the recorder can ask for the focused window.
pub enum ProviderKind {
    Hyprland,
    Sway,
    /// No supported compositor: no focus changes are reported.
    Null,
}

/// The provider for a session: Hyprland when its instance signature is set
/// in the environment, else Sway when its socket is set, else none.
pub fn provider_for(hyprland_signature_set: bool, sway_socket_set: bool) -> (k: ProviderKind)
    ensures
        k == if hyprland_signature_set {
            ProviderKind::Hyprland
        } else if sway_socket_set {
            ProviderKind::Sway
        } else {
            ProviderKind::Null
        },
{
    if hyprland_signature_set {
        ProviderKind::Hyprland
    } else if sway_socket_set {
        ProviderKind::Sway
    } else {
        ProviderKind::Null
    }
}

} // verus!
