//! What a server sends of its own accord: requests that expect an answer,
//! and notifications.

use crate::error::{params_or_invalid, Error};
use crate::jsonrpc::Params;
use vstd::prelude::*;

verus! {

#[verifier::external_type_specification]
#[verifier::external_body]
pub struct ExWorkDoneProgressCreateParams(lsp_types::WorkDoneProgressCreateParams);

#[verifier::external_type_specification]
#[verifier::external_body]
pub struct ExApplyWorkspaceEditParams(lsp_types::ApplyWorkspaceEditParams);

#[verifier::external_type_specification]
#[verifier::external_body]
pub struct ExConfigurationParams(lsp_types::ConfigurationParams);

#[verifier::external_type_specification]
#[verifier::external_body]
pub struct ExPublishDiagnosticsParams(lsp_types::PublishDiagnosticsParams);

#[verifier::external_type_specification]
#[verifier::external_body]
pub struct ExShowMessageParams(lsp_types::ShowMessageParams);

#[verifier::external_type_specification]
#[verifier::external_body]
pub struct ExLogMessageParams(lsp_types::LogMessageParams);

#[verifier::external_type_specification]
#[verifier::external_body]
pub struct ExProgressParams(lsp_types::ProgressParams);

/// `Clone` of `WorkDoneProgressCreateParams`: parameters equal to the given ones.
pub assume_specification[ <lsp_types::WorkDoneProgressCreateParams as Clone>::clone ](
    params: &lsp_types::WorkDoneProgressCreateParams,
) -> (r: lsp_types::WorkDoneProgressCreateParams)
    ensures
        r == *params,
;

/// `Clone` of `ApplyWorkspaceEditParams`: parameters equal to the given ones.
pub assume_specification[ <lsp_types::ApplyWorkspaceEditParams as Clone>::clone ](
    params: &lsp_types::ApplyWorkspaceEditParams,
) -> (r: lsp_types::ApplyWorkspaceEditParams)
    ensures
        r == *params,
;

/// `Clone` of `ConfigurationParams`: parameters equal to the given ones.
pub assume_specification[ <lsp_types::ConfigurationParams as Clone>::clone ](
    params: &lsp_types::ConfigurationParams,
) -> (r: lsp_types::ConfigurationParams)
    ensures
        r == *params,
;

/// `Clone` of `PublishDiagnosticsParams`: parameters equal to the given ones.
pub assume_specification[ <lsp_types::PublishDiagnosticsParams as Clone>::clone ](
    params: &lsp_types::PublishDiagnosticsParams,
) -> (r: lsp_types::PublishDiagnosticsParams)
    ensures
        r == *params,
;

/// `Clone` of `ShowMessageParams`: parameters equal to the given ones.
pub assume_specification[ <lsp_types::ShowMessageParams as Clone>::clone ](
    params: &lsp_types::ShowMessageParams,
) -> (r: lsp_types::ShowMessageParams)
    ensures
        r == *params,
;

/// `Clone` of `LogMessageParams`: parameters equal to the given ones.
pub assume_specification[ <lsp_types::LogMessageParams as Clone>::clone ](
    params: &lsp_types::LogMessageParams,
) -> (r: lsp_types::LogMessageParams)
    ensures
        r == *params,
;

/// `Clone` of `ProgressParams`: parameters equal to the given ones.
pub assume_specification[ <lsp_types::ProgressParams as Clone>::clone ](
    params: &lsp_types::ProgressParams,
) -> (r: lsp_types::ProgressParams)
    ensures
        r == *params,
;

/// A request of the server, with its parameters.
#[derive(Debug, PartialEq, Clone)]
pub enum MethodCall {
    WorkDoneProgressCreate(lsp_types::WorkDoneProgressCreateParams),
    ApplyWorkspaceEdit(lsp_types::ApplyWorkspaceEditParams),
    WorkspaceFolders,
    WorkspaceConfiguration(lsp_types::ConfigurationParams),
}

/// A notification of the server, with its parameters.
#[derive(Debug, PartialEq, Clone)]
pub enum Notification {
    /// Not sent by a server: put in to say that the server is ready.
    Initialized,
    /// Not sent by a server: put in to say that the server has gone.
    Exit,
    PublishDiagnostics(lsp_types::PublishDiagnosticsParams),
    ShowMessage(lsp_types::ShowMessageParams),
    LogMessage(lsp_types::LogMessageParams),
    ProgressMessage(lsp_types::ProgressParams),
}

/// The requests that this client answers.
#[derive(Clone, Copy, Debug, PartialEq, Eq, Structural, Hash)]
pub enum RequestKind {
    WorkDoneProgressCreate,
    ApplyWorkspaceEdit,
    WorkspaceFolders,
    WorkspaceConfiguration,
}

/// The notifications that this client takes.
#[derive(Clone, Copy, Debug, PartialEq, Eq, Structural, Hash)]
pub enum NotificationKind {
    Initialized,
    Exit,
    PublishDiagnostics,
    ShowMessage,
    LogMessage,
    Progress,
}

/// The request that a method name stands for, if this client answers it.
pub open spec fn request_kind(method: Seq<char>) -> Option<RequestKind> {
    if method == "window/workDoneProgress/create"@ {
        Some(RequestKind::WorkDoneProgressCreate)
    } else if method == "workspace/applyEdit"@ {
        Some(RequestKind::ApplyWorkspaceEdit)
    } else if method == "workspace/workspaceFolders"@ {
        Some(RequestKind::WorkspaceFolders)
    } else if method == "workspace/configuration"@ {
        Some(RequestKind::WorkspaceConfiguration)
    } else {
        None
    }
}

/// The notification that a method name stands for, if this client takes it.
pub open spec fn notification_kind(method: Seq<char>) -> Option<NotificationKind> {
    if method == "initialized"@ {
        Some(NotificationKind::Initialized)
    } else if method == "exit"@ {
        Some(NotificationKind::Exit)
    } else if method == "textDocument/publishDiagnostics"@ {
        Some(NotificationKind::PublishDiagnostics)
    } else if method == "window/showMessage"@ {
        Some(NotificationKind::ShowMessage)
    } else if method == "window/logMessage"@ {
        Some(NotificationKind::LogMessage)
    } else if method == "$/progress"@ {
        Some(NotificationKind::Progress)
    } else {
        None
    }
}

/// Whether a method name is this one.
fn is_method(method: &String, name: &str) -> (r: bool)
    ensures
        r == (method@ == name@),
{
    *method == name.to_owned()
}

/// Names the request that a method name stands for.
pub fn find_request(method: &str) -> (kind: Option<RequestKind>)
    ensures
        kind == request_kind(method@),
{
    let method = method.to_owned();
    if is_method(&method, "window/workDoneProgress/create") {
        Some(RequestKind::WorkDoneProgressCreate)
    } else if is_method(&method, "workspace/applyEdit") {
        Some(RequestKind::ApplyWorkspaceEdit)
    } else if is_method(&method, "workspace/workspaceFolders") {
        Some(RequestKind::WorkspaceFolders)
    } else if is_method(&method, "workspace/configuration") {
        Some(RequestKind::WorkspaceConfiguration)
    } else {
        None
    }
}

/// Names the notification that a method name stands for.
pub fn find_notification(method: &str) -> (kind: Option<NotificationKind>)
    ensures
        kind == notification_kind(method@),
{
    let method = method.to_owned();
    if is_method(&method, "initialized") {
        Some(NotificationKind::Initialized)
    } else if is_method(&method, "exit") {
        Some(NotificationKind::Exit)
    } else if is_method(&method, "textDocument/publishDiagnostics") {
        Some(NotificationKind::PublishDiagnostics)
    } else if is_method(&method, "window/showMessage") {
        Some(NotificationKind::ShowMessage)
    } else if is_method(&method, "window/logMessage") {
        Some(NotificationKind::LogMessage)
    } else if is_method(&method, "$/progress") {
        Some(NotificationKind::Progress)
    } else {
        None
    }
}

/// The parameters as one JSON value: none of them as null, a list as an
/// array, named ones as an object.
pub uninterp spec fn params_json(params: Params) -> serde_json::Value;

/// Builds the one JSON value that the parameters are: `Value::Null` for
/// none, `Value::Array` of a list, `Value::Object` of named ones.
#[verifier::external_body]
fn params_value(params: Params) -> (r: serde_json::Value)
    ensures
        r == params_json(params),
{
    match params {
        Params::Absent => serde_json::Value::Null,
        Params::Array(list) => serde_json::Value::Array(list),
        Params::Object(map) => serde_json::Value::Object(map),
    }
}

/// What `serde_json::from_value` makes of a JSON value as the parameters
/// of `window/workDoneProgress/create`: the parameters, or the parser's error in words.
pub uninterp spec fn decoded_work_done_progress_create(value: serde_json::Value) -> Result<
    lsp_types::WorkDoneProgressCreateParams,
    Seq<char>,
>;

/// `serde_json::from_value` for the parameters of `window/workDoneProgress/create`: the
/// parameters, or the parser's error in words. The parser reads the value
/// and nothing else.
#[verifier::external_body]
fn work_done_progress_create_params(value: serde_json::Value) -> (r: Result<lsp_types::WorkDoneProgressCreateParams, String>)
    ensures
        decoded_work_done_progress_create(value) == (match r {
            Ok(p) => Ok::<lsp_types::WorkDoneProgressCreateParams, Seq<char>>(p),
            Err(t) => Err::<lsp_types::WorkDoneProgressCreateParams, Seq<char>>(t@),
        }),
{
    match serde_json::from_value(value) {
        Ok(params) => Ok(params),
        Err(err) => Err(err.to_string()),
    }
}

/// What `serde_json::from_value` finds wrong with a JSON value as the
/// parameters of `workspace/applyEdit`: the parser's error in words, or
/// nothing where the value decodes. The parameters themselves get no name:
/// they hold hash maps, which are built anew, each with a seed of its own,
/// whenever a value is decoded.
pub uninterp spec fn apply_workspace_edit_error(value: serde_json::Value) -> Option<Seq<char>>;

/// `serde_json::from_value` for the parameters of `workspace/applyEdit`: the
/// parameters, or the parser's error in words. Whether the value decodes,
/// and the error if it does not, rest on the value and nothing else.
#[verifier::external_body]
fn apply_workspace_edit_params(value: serde_json::Value) -> (r: Result<lsp_types::ApplyWorkspaceEditParams, String>)
    ensures
        apply_workspace_edit_error(value) == (match r {
            Ok(_) => None::<Seq<char>>,
            Err(t) => Some(t@),
        }),
{
    match serde_json::from_value(value) {
        Ok(params) => Ok(params),
        Err(err) => Err(err.to_string()),
    }
}

/// What `serde_json::from_value` makes of a JSON value as the parameters
/// of `workspace/configuration`: the parameters, or the parser's error in words.
pub uninterp spec fn decoded_configuration(value: serde_json::Value) -> Result<
    lsp_types::ConfigurationParams,
    Seq<char>,
>;

/// `serde_json::from_value` for the parameters of `workspace/configuration`: the
/// parameters, or the parser's error in words. The parser reads the value
/// and nothing else.
#[verifier::external_body]
fn configuration_params(value: serde_json::Value) -> (r: Result<lsp_types::ConfigurationParams, String>)
    ensures
        decoded_configuration(value) == (match r {
            Ok(p) => Ok::<lsp_types::ConfigurationParams, Seq<char>>(p),
            Err(t) => Err::<lsp_types::ConfigurationParams, Seq<char>>(t@),
        }),
{
    match serde_json::from_value(value) {
        Ok(params) => Ok(params),
        Err(err) => Err(err.to_string()),
    }
}

/// What `serde_json::from_value` makes of a JSON value as the parameters
/// of `textDocument/publishDiagnostics`: the parameters, or the parser's error in words.
pub uninterp spec fn decoded_publish_diagnostics(value: serde_json::Value) -> Result<
    lsp_types::PublishDiagnosticsParams,
    Seq<char>,
>;

/// `serde_json::from_value` for the parameters of `textDocument/publishDiagnostics`: the
/// parameters, or the parser's error in words. The parser reads the value
/// and nothing else.
#[verifier::external_body]
fn publish_diagnostics_params(value: serde_json::Value) -> (r: Result<lsp_types::PublishDiagnosticsParams, String>)
    ensures
        decoded_publish_diagnostics(value) == (match r {
            Ok(p) => Ok::<lsp_types::PublishDiagnosticsParams, Seq<char>>(p),
            Err(t) => Err::<lsp_types::PublishDiagnosticsParams, Seq<char>>(t@),
        }),
{
    match serde_json::from_value(value) {
        Ok(params) => Ok(params),
        Err(err) => Err(err.to_string()),
    }
}

/// What `serde_json::from_value` makes of a JSON value as the parameters
/// of `window/showMessage`: the parameters, or the parser's error in words.
pub uninterp spec fn decoded_show_message(value: serde_json::Value) -> Result<
    lsp_types::ShowMessageParams,
    Seq<char>,
>;

/// `serde_json::from_value` for the parameters of `window/showMessage`: the
/// parameters, or the parser's error in words. The parser reads the value
/// and nothing else.
#[verifier::external_body]
fn show_message_params(value: serde_json::Value) -> (r: Result<lsp_types::ShowMessageParams, String>)
    ensures
        decoded_show_message(value) == (match r {
            Ok(p) => Ok::<lsp_types::ShowMessageParams, Seq<char>>(p),
            Err(t) => Err::<lsp_types::ShowMessageParams, Seq<char>>(t@),
        }),
{
    match serde_json::from_value(value) {
        Ok(params) => Ok(params),
        Err(err) => Err(err.to_string()),
    }
}

/// What `serde_json::from_value` makes of a JSON value as the parameters
/// of `window/logMessage`: the parameters, or the parser's error in words.
pub uninterp spec fn decoded_log_message(value: serde_json::Value) -> Result<
    lsp_types::LogMessageParams,
    Seq<char>,
>;

/// `serde_json::from_value` for the parameters of `window/logMessage`: the
/// parameters, or the parser's error in words. The parser reads the value
/// and nothing else.
#[verifier::external_body]
fn log_message_params(value: serde_json::Value) -> (r: Result<lsp_types::LogMessageParams, String>)
    ensures
        decoded_log_message(value) == (match r {
            Ok(p) => Ok::<lsp_types::LogMessageParams, Seq<char>>(p),
            Err(t) => Err::<lsp_types::LogMessageParams, Seq<char>>(t@),
        }),
{
    match serde_json::from_value(value) {
        Ok(params) => Ok(params),
        Err(err) => Err(err.to_string()),
    }
}

/// What `serde_json::from_value` makes of a JSON value as the parameters
/// of `$/progress`: the parameters, or the parser's error in words.
pub uninterp spec fn decoded_progress(value: serde_json::Value) -> Result<
    lsp_types::ProgressParams,
    Seq<char>,
>;

/// `serde_json::from_value` for the parameters of `$/progress`: the
/// parameters, or the parser's error in words. The parser reads the value
/// and nothing else.
#[verifier::external_body]
fn progress_params(value: serde_json::Value) -> (r: Result<lsp_types::ProgressParams, String>)
    ensures
        decoded_progress(value) == (match r {
            Ok(p) => Ok::<lsp_types::ProgressParams, Seq<char>>(p),
            Err(t) => Err::<lsp_types::ProgressParams, Seq<char>>(t@),
        }),
{
    match serde_json::from_value(value) {
        Ok(params) => Ok(params),
        Err(err) => Err(err.to_string()),
    }
}

impl MethodCall {
    /// The request that this call is.
    pub open spec fn kind(&self) -> RequestKind {
        match self {
            MethodCall::WorkDoneProgressCreate(_) => RequestKind::WorkDoneProgressCreate,
            MethodCall::ApplyWorkspaceEdit(_) => RequestKind::ApplyWorkspaceEdit,
            MethodCall::WorkspaceFolders => RequestKind::WorkspaceFolders,
            MethodCall::WorkspaceConfiguration(_) => RequestKind::WorkspaceConfiguration,
        }
    }

    /// Whether `r` is what reading a request comes to. A method that this
    /// client does not answer is `Unhandled`. The request for the
    /// workspace folders takes no parameters and is read whatever it came
    /// with. Any other request is read exactly when its parameters decode
    /// as those of its method, and then holds them; otherwise the result
    /// is the protocol error for invalid parameters, which says what the
    /// parser found wrong. Of a workspace edit that decodes, only that it
    /// is one is said: what it holds is built afresh at every decoding.
    pub open spec fn is_parse_of(r: Result<MethodCall, Error>, method: Seq<char>, params: Params)
        -> bool {
        let value = params_json(params);
        match request_kind(method) {
            None => r matches Err(e) && e is Unhandled,
            Some(RequestKind::WorkspaceFolders) => r matches Ok(call) && call is WorkspaceFolders,
            Some(RequestKind::WorkDoneProgressCreate) => match decoded_work_done_progress_create(
                value,
            ) {
                Ok(p) => r == Ok::<MethodCall, Error>(MethodCall::WorkDoneProgressCreate(p)),
                Err(text) => r matches Err(e) && e.says_invalid_params(text),
            },
            Some(RequestKind::ApplyWorkspaceEdit) => match apply_workspace_edit_error(value) {
                None => r matches Ok(call) && call is ApplyWorkspaceEdit,
                Some(text) => r matches Err(e) && e.says_invalid_params(text),
            },
            Some(RequestKind::WorkspaceConfiguration) => match decoded_configuration(value) {
                Ok(p) => r == Ok::<MethodCall, Error>(MethodCall::WorkspaceConfiguration(p)),
                Err(text) => r matches Err(e) && e.says_invalid_params(text),
            },
        }
    }

    /// Reads a request of the server: names its method, and decodes its
    /// parameters as those of that method.
    pub fn parse(method: &str, params: Params) -> (r: Result<MethodCall, Error>)
        ensures
            Self::is_parse_of(r, method@, params),
    {
        match find_request(method) {
            Some(RequestKind::WorkDoneProgressCreate) => {
                match params_or_invalid(work_done_progress_create_params(params_value(params))) {
                    Ok(params) => Ok(MethodCall::WorkDoneProgressCreate(params)),
                    Err(e) => Err(e),
                }
            },
            Some(RequestKind::ApplyWorkspaceEdit) => {
                match params_or_invalid(apply_workspace_edit_params(params_value(params))) {
                    Ok(params) => Ok(MethodCall::ApplyWorkspaceEdit(params)),
                    Err(e) => Err(e),
                }
            },
            Some(RequestKind::WorkspaceFolders) => Ok(MethodCall::WorkspaceFolders),
            Some(RequestKind::WorkspaceConfiguration) => {
                match params_or_invalid(configuration_params(params_value(params))) {
                    Ok(params) => Ok(MethodCall::WorkspaceConfiguration(params)),
                    Err(e) => Err(e),
                }
            },
            None => Err(Error::Unhandled),
        }
    }
}

impl Notification {
    /// The notification that this is.
    pub open spec fn kind(&self) -> NotificationKind {
        match self {
            Notification::Initialized => NotificationKind::Initialized,
            Notification::Exit => NotificationKind::Exit,
            Notification::PublishDiagnostics(_) => NotificationKind::PublishDiagnostics,
            Notification::ShowMessage(_) => NotificationKind::ShowMessage,
            Notification::LogMessage(_) => NotificationKind::LogMessage,
            Notification::ProgressMessage(_) => NotificationKind::Progress,
        }
    }

    /// Whether `r` is what reading a notification comes to. A method
    /// that this client does not take is `Unhandled`. The two
    /// notifications without parameters are read whatever they came with.
    /// Any other notification is read exactly when its parameters decode
    /// as those of its method, and then holds them; otherwise the result
    /// is the protocol error for invalid parameters, which says what the
    /// parser found wrong.
    pub open spec fn is_parse_of(
        r: Result<Notification, Error>,
        method: Seq<char>,
        params: Params,
    ) -> bool {
        let value = params_json(params);
        match notification_kind(method) {
            None => r matches Err(e) && e is Unhandled,
            Some(NotificationKind::Initialized) => r matches Ok(n) && n is Initialized,
            Some(NotificationKind::Exit) => r matches Ok(n) && n is Exit,
            Some(NotificationKind::PublishDiagnostics) => match decoded_publish_diagnostics(value) {
                Ok(p) => r == Ok::<Notification, Error>(Notification::PublishDiagnostics(p)),
                Err(text) => r matches Err(e) && e.says_invalid_params(text),
            },
            Some(NotificationKind::ShowMessage) => match decoded_show_message(value) {
                Ok(p) => r == Ok::<Notification, Error>(Notification::ShowMessage(p)),
                Err(text) => r matches Err(e) && e.says_invalid_params(text),
            },
            Some(NotificationKind::LogMessage) => match decoded_log_message(value) {
                Ok(p) => r == Ok::<Notification, Error>(Notification::LogMessage(p)),
                Err(text) => r matches Err(e) && e.says_invalid_params(text),
            },
            Some(NotificationKind::Progress) => match decoded_progress(value) {
                Ok(p) => r == Ok::<Notification, Error>(Notification::ProgressMessage(p)),
                Err(text) => r matches Err(e) && e.says_invalid_params(text),
            },
        }
    }

    /// Reads a notification of the server: names its method, and decodes
    /// its parameters as those of that method.
    pub fn parse(method: &str, params: Params) -> (r: Result<Notification, Error>)
        ensures
            Self::is_parse_of(r, method@, params),
    {
        match find_notification(method) {
            Some(NotificationKind::Initialized) => Ok(Notification::Initialized),
            Some(NotificationKind::Exit) => Ok(Notification::Exit),
            Some(NotificationKind::PublishDiagnostics) => {
                match params_or_invalid(publish_diagnostics_params(params_value(params))) {
                    Ok(params) => Ok(Notification::PublishDiagnostics(params)),
                    Err(e) => Err(e),
                }
            },
            Some(NotificationKind::ShowMessage) => {
                match params_or_invalid(show_message_params(params_value(params))) {
                    Ok(params) => Ok(Notification::ShowMessage(params)),
                    Err(e) => Err(e),
                }
            },
            Some(NotificationKind::LogMessage) => {
                match params_or_invalid(log_message_params(params_value(params))) {
                    Ok(params) => Ok(Notification::LogMessage(params)),
                    Err(e) => Err(e),
                }
            },
            Some(NotificationKind::Progress) => {
                match params_or_invalid(progress_params(params_value(params))) {
                    Ok(params) => Ok(Notification::ProgressMessage(params)),
                    Err(e) => Err(e),
                }
            },
            None => Err(Error::Unhandled),
        }
    }
}

} // verus!
