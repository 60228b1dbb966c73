//! What each D-Bus service does with an incoming message: which operation it
//! asks for, with which arguments, or why it is refused.

use vstd::prelude::*;
use crate::dbus::{spec_is_method, text_argument, Message, SpecMessage};
use crate::error::{Error, ErrorKind};

verus! {

pub const INSTALLER_INTERFACE: &'static str = "org.droidianos.Installer";

pub const INTEGRATION_INTERFACE: &'static str = "org.droidianos.Integration";

pub const PERMISSIONS_INTERFACE: &'static str = "org.droidianos.Permissions";

pub const UPDATES_INTERFACE: &'static str = "org.droidianos.Updates";

/// Refusal of a malformed call: the message the caller gets.
pub open spec fn refusal_is(e: Error, message: Seq<char>) -> bool {
    e.kind == ErrorKind::InvalidInput && e.message@ == message
}

/// A request to the installer service.
#[derive(Debug)]
pub enum InstallerRequest {
    InspectApk(String),
    InstallApk(String),
    GetTransaction(String),
    Invalid(Error),
    Ignored,
}

/// The request a message makes of `org.droidianos.Installer`: the method decides the
/// operation, its first argument (a string) the file or the transaction.
pub open spec fn installer_request_is(m: SpecMessage, r: InstallerRequest) -> bool {
    let arg = text_argument(m.arguments, 0);
    let one = "method requires one string argument"@;
    if spec_is_method(m, INSTALLER_INTERFACE@, "InspectApk"@) {
        match arg {
            Some(p) => r matches InstallerRequest::InspectApk(x) && x@ == p,
            None => r matches InstallerRequest::Invalid(e) && refusal_is(e, one),
        }
    } else if spec_is_method(m, INSTALLER_INTERFACE@, "InstallApk"@) {
        match arg {
            Some(p) => r matches InstallerRequest::InstallApk(x) && x@ == p,
            None => r matches InstallerRequest::Invalid(e) && refusal_is(e, one),
        }
    } else if spec_is_method(m, INSTALLER_INTERFACE@, "GetTransaction"@) {
        match arg {
            Some(p) => r matches InstallerRequest::GetTransaction(x) && x@ == p,
            None => r matches InstallerRequest::Invalid(e) && refusal_is(e, one),
        }
    } else {
        r is Ignored
    }
}

/// What the installer service is asked to do.
pub fn installer_request(message: &Message) -> (r: InstallerRequest)
    ensures
        installer_request_is(message.deep_view(), r),
{
    if message.is_method(INSTALLER_INTERFACE, "InspectApk") {
        match message.string_arg() {
            Ok(path) => InstallerRequest::InspectApk(path),
            Err(e) => InstallerRequest::Invalid(e),
        }
    } else if message.is_method(INSTALLER_INTERFACE, "InstallApk") {
        match message.string_arg() {
            Ok(path) => InstallerRequest::InstallApk(path),
            Err(e) => InstallerRequest::Invalid(e),
        }
    } else if message.is_method(INSTALLER_INTERFACE, "GetTransaction") {
        match message.string_arg() {
            Ok(id) => InstallerRequest::GetTransaction(id),
            Err(e) => InstallerRequest::Invalid(e),
        }
    } else {
        InstallerRequest::Ignored
    }
}

/// A request to the integration service.
#[derive(Debug)]
pub enum IntegrationRequest {
    ListApps,
    RefreshApps,
    LaunchApp(String),
    Invalid(Error),
    Ignored,
}

/// The request a message makes of `org.droidianos.Integration`. `LaunchApp` takes a package
/// and an activity and refuses an empty package; `UninstallApp` is refused as not
/// implemented.
pub open spec fn integration_request_is(m: SpecMessage, r: IntegrationRequest) -> bool {
    if spec_is_method(m, INTEGRATION_INTERFACE@, "ListApps"@) {
        r is ListApps
    } else if spec_is_method(m, INTEGRATION_INTERFACE@, "RefreshApps"@) {
        r is RefreshApps
    } else if spec_is_method(m, INTEGRATION_INTERFACE@, "LaunchApp"@) {
        match (text_argument(m.arguments, 0), text_argument(m.arguments, 1)) {
            (Some(p), Some(_)) => if p.len() == 0 {
                r matches IntegrationRequest::Invalid(e) && e.kind == ErrorKind::InvalidInput
                    && e.message@ == "package must not be empty"@
            } else {
                r matches IntegrationRequest::LaunchApp(x) && x@ == p
            },
            _ => r matches IntegrationRequest::Invalid(e) && refusal_is(
                e,
                "method requires two string arguments"@,
            ),
        }
    } else if spec_is_method(m, INTEGRATION_INTERFACE@, "UninstallApp"@) {
        r matches IntegrationRequest::Invalid(e) && e.kind == ErrorKind::Other && e.message@
            == "method is not implemented yet"@
    } else {
        r is Ignored
    }
}

/// What the integration service is asked to do.
pub fn integration_request(message: &Message) -> (r: IntegrationRequest)
    ensures
        integration_request_is(message.deep_view(), r),
{
    if message.is_method(INTEGRATION_INTERFACE, "ListApps") {
        IntegrationRequest::ListApps
    } else if message.is_method(INTEGRATION_INTERFACE, "RefreshApps") {
        IntegrationRequest::RefreshApps
    } else if message.is_method(INTEGRATION_INTERFACE, "LaunchApp") {
        match message.string_pair_args() {
            Ok((package, _activity)) => {
                if package.as_str().is_empty() {
                    IntegrationRequest::Invalid(
                        Error::new(ErrorKind::InvalidInput, "package must not be empty"),
                    )
                } else {
                    IntegrationRequest::LaunchApp(package)
                }
            },
            Err(e) => IntegrationRequest::Invalid(e),
        }
    } else if message.is_method(INTEGRATION_INTERFACE, "UninstallApp") {
        IntegrationRequest::Invalid(Error::new(ErrorKind::Other, "method is not implemented yet"))
    } else {
        IntegrationRequest::Ignored
    }
}

/// A request to the permissions service.
#[derive(Debug)]
pub enum PermissionsRequest {
    ListPermissions(String),
    SetPermission(String, String, String),
    Invalid(Error),
    Ignored,
}

/// The request a message makes of `org.droidianos.Permissions`.
pub open spec fn permissions_request_is(m: SpecMessage, r: PermissionsRequest) -> bool {
    if spec_is_method(m, PERMISSIONS_INTERFACE@, "ListPermissions"@) {
        match text_argument(m.arguments, 0) {
            Some(p) => r matches PermissionsRequest::ListPermissions(x) && x@ == p,
            None => r matches PermissionsRequest::Invalid(e) && refusal_is(
                e,
                "method requires one string argument"@,
            ),
        }
    } else if spec_is_method(m, PERMISSIONS_INTERFACE@, "SetPermission"@) {
        match (
            text_argument(m.arguments, 0),
            text_argument(m.arguments, 1),
            text_argument(m.arguments, 2),
        ) {
            (Some(a), Some(b), Some(c)) => r matches PermissionsRequest::SetPermission(x, y, z)
                && x@ == a && y@ == b && z@ == c,
            _ => r matches PermissionsRequest::Invalid(e) && refusal_is(
                e,
                "method requires three string arguments"@,
            ),
        }
    } else {
        r is Ignored
    }
}

/// What the permissions service is asked to do.
pub fn permissions_request(message: &Message) -> (r: PermissionsRequest)
    ensures
        permissions_request_is(message.deep_view(), r),
{
    if message.is_method(PERMISSIONS_INTERFACE, "ListPermissions") {
        match message.string_arg() {
            Ok(package) => PermissionsRequest::ListPermissions(package),
            Err(e) => PermissionsRequest::Invalid(e),
        }
    } else if message.is_method(PERMISSIONS_INTERFACE, "SetPermission") {
        match message.string_triple_args() {
            Ok((package, permission, state)) => PermissionsRequest::SetPermission(
                package,
                permission,
                state,
            ),
            Err(e) => PermissionsRequest::Invalid(e),
        }
    } else {
        PermissionsRequest::Ignored
    }
}

/// A request to the update service.
#[derive(Clone, Copy, Debug, PartialEq, Eq, Structural)]
pub enum UpdatesRequest {
    CheckUpdates,
    ListUpdates,
    ApplyUpdates,
    Ignored,
}

/// The request a message makes of `org.droidianos.Updates`.
pub open spec fn updates_request_is(m: SpecMessage, r: UpdatesRequest) -> bool {
    if spec_is_method(m, UPDATES_INTERFACE@, "CheckUpdates"@) {
        r == UpdatesRequest::CheckUpdates
    } else if spec_is_method(m, UPDATES_INTERFACE@, "ListUpdates"@) {
        r == UpdatesRequest::ListUpdates
    } else if spec_is_method(m, UPDATES_INTERFACE@, "ApplyUpdates"@) {
        r == UpdatesRequest::ApplyUpdates
    } else {
        r == UpdatesRequest::Ignored
    }
}

/// What the update service is asked to do.
pub fn updates_request(message: &Message) -> (r: UpdatesRequest)
    ensures
        updates_request_is(message.deep_view(), r),
{
    if message.is_method(UPDATES_INTERFACE, "CheckUpdates") {
        UpdatesRequest::CheckUpdates
    } else if message.is_method(UPDATES_INTERFACE, "ListUpdates") {
        UpdatesRequest::ListUpdates
    } else if message.is_method(UPDATES_INTERFACE, "ApplyUpdates") {
        UpdatesRequest::ApplyUpdates
    } else {
        UpdatesRequest::Ignored
    }
}

/// Where a launch requested through `LaunchApp` stands.
#[derive(Clone, Copy, Debug, PartialEq, Eq, Structural)]
pub enum LaunchStage {
    /// The request was accepted; the launch is about to run.
    Requested,
    /// Waydroid launched the application; the call is answered with an empty reply.
    Launched,
    /// The launch failed; the call is answered with the error.
    LaunchFailed,
}

/// The state `AppStateChanged` announces at each stage of a launch.
pub open spec fn spec_launch_state(stage: LaunchStage) -> Seq<char> {
    match stage {
        LaunchStage::Requested => "Starting"@,
        LaunchStage::Launched => "Running"@,
        LaunchStage::LaunchFailed => "Failed"@,
    }
}

/// The state announced at a stage of a launch.
pub fn launch_state(stage: LaunchStage) -> (state: &'static str)
    ensures
        state@ == spec_launch_state(stage),
{
    match stage {
        LaunchStage::Requested => "Starting",
        LaunchStage::Launched => "Running",
        LaunchStage::LaunchFailed => "Failed",
    }
}

} // verus!
