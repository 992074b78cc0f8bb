//! The daemon that manages nodes: how it is installed as a service, and how it answers.

use vstd::prelude::*;

use crate::decimal::decimal;
use crate::decimal::dotted;
use crate::decimal::to_decimal;
use crate::decimal::to_dotted;

verus! {

/// The port on which the daemon listens for remote calls unless it is told otherwise.
pub const PORT: u16 = 12500;

/// The name under which the daemon is installed.
pub const DAEMON_SERVICE_NAME: &'static str = "safenode-manager-daemon";

/// The error that `std::io` reports.
#[verifier::external_type_specification]
#[verifier::external_body]
pub struct ExIoError(std::io::Error);

/// The label of a service, in the parts that service managers tell apart.
#[derive(Debug, PartialEq, Eq)]
pub struct ServiceLabel {
    /// What the organization is qualified by, such as `org`.
    pub qualifier: Option<String>,
    /// The organization that the service belongs to.
    pub organization: Option<String>,
    /// The name of the application.
    pub application: String,
}

/// A part of a qualified name, with the dot behind it.
pub open spec fn dotted_part(part: Option<String>) -> Seq<char> {
    match part {
        Some(text) => text@.push('.'),
        None => Seq::empty(),
    }
}

impl ServiceLabel {
    /// The parts of the label, put together with dots.
    pub open spec fn qualified_name(&self) -> Seq<char> {
        dotted_part(self.qualifier) + dotted_part(self.organization) + self.application@
    }

    /// Whether the parts are those of a qualified name, split at its first two dots.
    pub open spec fn is_split(&self) -> bool {
        &&& self.qualifier matches Some(text) ==> !text@.contains('.') && self.organization is Some
        &&& self.organization matches Some(text) ==> !text@.contains('.')
        &&& self.qualifier is None ==> !self.application@.contains('.')
    }
}

/// Calls `from_str` of `service_manager::ServiceLabel`.
///
/// Every text is a label. A text without a dot names an application; a dot divides an
/// organization from an application, and of two or more dots the first two divide a qualifier,
/// an organization and an application. Put together again, the parts give back the text.
#[verifier::external_body]
fn parse_service_label(text: &str) -> (label: Result<ServiceLabel, std::io::Error>)
    ensures
        label is Ok,
        label->Ok_0.is_split(),
        label->Ok_0.qualified_name() == text@,
{
    text.parse::<service_manager::ServiceLabel>().map(
        |label|
            ServiceLabel {
                qualifier: label.qualifier,
                organization: label.organization,
                application: label.application,
            },
    )
}

/// Calls `to_string` of `service_manager::ServiceLabel`.
///
/// The result is the qualified name of the label.
#[verifier::external_body]
fn service_label_to_string(label: &ServiceLabel) -> (text: String)
    ensures
        text@ == label.qualified_name(),
{
    service_manager::ServiceLabel {
        qualifier: label.qualifier.clone(),
        organization: label.organization.clone(),
        application: label.application.clone(),
    }.to_string()
}

/// What a service manager is told to install.
#[derive(Debug)]
pub struct ServiceInstallCtx {
    /// The label of the service.
    pub label: ServiceLabel,
    /// The program to run.
    pub program: std::path::PathBuf,
    /// The arguments of the program.
    pub args: Vec<String>,
    /// A service file to use instead of the usual one.
    pub contents: Option<String>,
    /// The user that the service runs as.
    pub username: Option<String>,
    /// The directory that the service runs in.
    pub working_directory: Option<std::path::PathBuf>,
    /// The environment variables of the service.
    pub environment: Option<Vec<(String, String)>>,
}

/// How the daemon is brought up: `install_ctx` is to be installed, then the service with the
/// name `service_name` is to be started.
#[derive(Debug)]
pub struct DaemonPlan {
    /// What to install.
    pub install_ctx: ServiceInstallCtx,
    /// What to start then.
    pub service_name: String,
}

/// Why the daemon cannot be brought up.
#[derive(Debug, Clone, Copy, PartialEq, Eq, Structural)]
pub enum DaemonError {
    /// The name of the service is no label.
    InvalidServiceLabel,
}

/// Plans how the daemon is brought up, so that it listens on the given address and port.
pub fn run(address: [u8; 4], port: u16, daemon_path: std::path::PathBuf) -> (result: Result<
    DaemonPlan,
    DaemonError,
>)
    ensures
        result matches Ok(plan) && {
            let ctx = plan.install_ctx;
            &&& plan.service_name@ == DAEMON_SERVICE_NAME@
            &&& ctx.label.qualifier is None
            &&& ctx.label.organization is None
            &&& ctx.label.application@ == DAEMON_SERVICE_NAME@
            &&& ctx.program == daemon_path
            &&& ctx.args@.len() == 4
            &&& ctx.args@[0]@ == "--port"@
            &&& ctx.args@[1]@ == decimal(port as nat)
            &&& ctx.args@[2]@ == "--address"@
            &&& ctx.args@[3]@ == dotted(address@)
            &&& ctx.contents is None
            &&& ctx.username is None
            &&& ctx.working_directory is None
            &&& ctx.environment is None
        },
{
    let label: ServiceLabel = match parse_service_label(DAEMON_SERVICE_NAME) {
        Ok(label) => label,
        Err(_) => {
            return Err(DaemonError::InvalidServiceLabel);
        },
    };
    let service_name: String = service_label_to_string(&label);
    proof {
        lemma_undotted_label(label);
    }
    let mut args: Vec<String> = Vec::new();
    args.push("--port".to_owned());
    args.push(to_decimal(port));
    args.push("--address".to_owned());
    args.push(to_dotted(address));
    let install_ctx: ServiceInstallCtx = ServiceInstallCtx {
        label,
        program: daemon_path,
        args,
        contents: None,
        username: None,
        working_directory: None,
        environment: None,
    };
    Ok(DaemonPlan { install_ctx, service_name })
}

/// The name of the daemon has no dot, so it is the name of an application.
proof fn lemma_undotted_label(label: ServiceLabel)
    requires
        label.is_split(),
        label.qualified_name() == DAEMON_SERVICE_NAME@,
    ensures
        label.qualifier is None,
        label.organization is None,
        label.application@ == DAEMON_SERVICE_NAME@,
{
    reveal_strlit("safenode-manager-daemon");
    let name = label.qualified_name();
    if let Some(text) = label.qualifier {
        assert(name[text@.len() as int] == '.');
    }
    if let Some(text) = label.organization {
        assert(name[(dotted_part(label.qualifier).len() + text@.len()) as int] == '.');
    }
    assert(label.qualified_name() =~= label.application@);
}

/// The status with which the daemon answers a call that failed.
#[derive(Debug, Clone, Copy, PartialEq, Eq, Structural)]
pub enum StatusCode {
    /// Something inside the daemon went wrong.
    Internal,
}

/// The answer to a call that failed.
#[derive(Debug)]
pub struct Status {
    /// What kind of failure it was.
    pub code: StatusCode,
    /// What to tell the caller.
    pub message: String,
}

/// The answer to a call to restart a node, given how the restart went. If it failed, `err` is
/// the reason.
pub fn restart_response(outcome: Result<(), String>) -> (response: Result<(), Status>)
    ensures
        match outcome {
            Ok(()) => response is Ok,
            Err(err) => response matches Err(status) && status.code == StatusCode::Internal
                && status.message@ == "Failed to stop the node: "@ + err@,
        },
{
    match outcome {
        Ok(()) => Ok(()),
        Err(err) => {
            let mut message: String = "Failed to stop the node: ".to_owned();
            message.append(err.as_str());
            Err(Status { code: StatusCode::Internal, message })
        },
    }
}

} // verus!
