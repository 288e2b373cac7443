use helix_lsp::calls::{find_notification, find_request, NotificationKind, RequestKind};
use helix_lsp::error::params_or_invalid;
use helix_lsp::jsonrpc::{classify, ErrorCode, Id, MessageKind, Params};
use helix_lsp::{Error, MethodCall, Notification};
use lsp_types::notification::Notification as _;
use lsp_types::request::Request as _;

fn object(text: &str) -> Params {
    match serde_json::from_str(text).unwrap() {
        serde_json::Value::Object(map) => Params::Object(map),
        _ => panic!("no object"),
    }
}

#[test]
fn method_names_are_those_of_the_protocol() {
    assert_eq!(
        find_request(lsp_types::request::WorkDoneProgressCreate::METHOD),
        Some(RequestKind::WorkDoneProgressCreate)
    );
    assert_eq!(
        find_request(lsp_types::request::ApplyWorkspaceEdit::METHOD),
        Some(RequestKind::ApplyWorkspaceEdit)
    );
    assert_eq!(
        find_request(lsp_types::request::WorkspaceFoldersRequest::METHOD),
        Some(RequestKind::WorkspaceFolders)
    );
    assert_eq!(
        find_request(lsp_types::request::WorkspaceConfiguration::METHOD),
        Some(RequestKind::WorkspaceConfiguration)
    );
    assert_eq!(find_request("textDocument/hover"), None);
    assert_eq!(find_request(""), None);
    assert_eq!(
        find_notification(lsp_types::notification::Initialized::METHOD),
        Some(NotificationKind::Initialized)
    );
    assert_eq!(
        find_notification(lsp_types::notification::Exit::METHOD),
        Some(NotificationKind::Exit)
    );
    assert_eq!(
        find_notification(lsp_types::notification::PublishDiagnostics::METHOD),
        Some(NotificationKind::PublishDiagnostics)
    );
    assert_eq!(
        find_notification(lsp_types::notification::ShowMessage::METHOD),
        Some(NotificationKind::ShowMessage)
    );
    assert_eq!(
        find_notification(lsp_types::notification::LogMessage::METHOD),
        Some(NotificationKind::LogMessage)
    );
    assert_eq!(
        find_notification(lsp_types::notification::Progress::METHOD),
        Some(NotificationKind::Progress)
    );
    assert_eq!(find_notification("window/workDoneProgress/create"), None);
}

#[test]
fn unknown_methods_are_unhandled() {
    assert_eq!(
        MethodCall::parse("textDocument/hover", Params::Absent),
        Err(Error::Unhandled)
    );
    assert_eq!(
        Notification::parse("window/workDoneProgress/create", Params::Absent),
        Err(Error::Unhandled)
    );
}

#[test]
fn calls_without_parameters() {
    assert_eq!(
        MethodCall::parse("workspace/workspaceFolders", Params::Absent),
        Ok(MethodCall::WorkspaceFolders)
    );
    assert_eq!(
        MethodCall::parse("workspace/workspaceFolders", object("{\"any\": 1}")),
        Ok(MethodCall::WorkspaceFolders)
    );
    assert_eq!(
        Notification::parse("initialized", Params::Absent),
        Ok(Notification::Initialized)
    );
    assert_eq!(
        Notification::parse("exit", Params::Array(vec![serde_json::Value::Null])),
        Ok(Notification::Exit)
    );
}

#[test]
fn calls_with_parameters() {
    assert_eq!(
        MethodCall::parse("window/workDoneProgress/create", object("{\"token\": 7}")),
        Ok(MethodCall::WorkDoneProgressCreate(
            lsp_types::WorkDoneProgressCreateParams {
                token: lsp_types::NumberOrString::Number(7)
            }
        ))
    );
    assert_eq!(
        MethodCall::parse(
            "workspace/configuration",
            object("{\"items\": [{\"section\": \"rust\"}]}")
        ),
        Ok(MethodCall::WorkspaceConfiguration(
            lsp_types::ConfigurationParams {
                items: vec![lsp_types::ConfigurationItem {
                    scope_uri: None,
                    section: Some("rust".to_string())
                }]
            }
        ))
    );
    assert_eq!(
        MethodCall::parse("workspace/applyEdit", object("{\"edit\": {}}")),
        Ok(MethodCall::ApplyWorkspaceEdit(
            lsp_types::ApplyWorkspaceEditParams {
                label: None,
                edit: lsp_types::WorkspaceEdit::default()
            }
        ))
    );
    assert_eq!(
        Notification::parse("window/showMessage", object("{\"type\": 3, \"message\": \"hi\"}")),
        Ok(Notification::ShowMessage(lsp_types::ShowMessageParams {
            typ: lsp_types::MessageType::INFO,
            message: "hi".to_string()
        }))
    );
    assert_eq!(
        Notification::parse("window/logMessage", object("{\"type\": 1, \"message\": \"no\"}")),
        Ok(Notification::LogMessage(lsp_types::LogMessageParams {
            typ: lsp_types::MessageType::ERROR,
            message: "no".to_string()
        }))
    );
    assert_eq!(
        Notification::parse(
            "textDocument/publishDiagnostics",
            object("{\"uri\": \"file:///a.rs\", \"diagnostics\": []}")
        ),
        Ok(Notification::PublishDiagnostics(
            lsp_types::PublishDiagnosticsParams {
                uri: lsp_types::Url::parse("file:///a.rs").unwrap(),
                diagnostics: Vec::new(),
                version: None
            }
        ))
    );
    assert_eq!(
        Notification::parse(
            "$/progress",
            object("{\"token\": \"t\", \"value\": {\"kind\": \"end\"}}")
        ),
        Ok(Notification::ProgressMessage(lsp_types::ProgressParams {
            token: lsp_types::NumberOrString::String("t".to_string()),
            value: lsp_types::ProgressParamsValue::WorkDone(lsp_types::WorkDoneProgress::End(
                lsp_types::WorkDoneProgressEnd { message: None }
            ))
        }))
    );
}

#[test]
fn parameters_of_the_wrong_shape_are_invalid() {
    for (method, params) in [
        ("window/workDoneProgress/create", Params::Absent),
        ("workspace/applyEdit", object("{\"edit\": 1}")),
        ("workspace/configuration", Params::Array(Vec::new())),
    ] {
        match MethodCall::parse(method, params) {
            Err(Error::Rpc(e)) => {
                assert_eq!(e.code, ErrorCode::InvalidParams);
                assert_eq!(e.data, None);
                assert!(e.message.starts_with("Invalid params: "));
                assert!(e.message.ends_with('.'));
            }
            other => panic!("{:?}", other),
        }
    }
    for (method, params) in [
        ("textDocument/publishDiagnostics", Params::Absent),
        ("window/showMessage", object("{\"message\": 1}")),
        ("window/logMessage", Params::Array(Vec::new())),
        ("$/progress", object("{\"token\": []}")),
    ] {
        match Notification::parse(method, params) {
            Err(Error::Rpc(e)) => assert_eq!(e.code, ErrorCode::InvalidParams),
            other => panic!("{:?}", other),
        }
    }
}

#[test]
fn parse_result_becomes_invalid_params() {
    assert_eq!(params_or_invalid(Ok::<u8, String>(3)), Ok(3));
    let err = params_or_invalid(Err::<u8, String>("missing field `token`".to_string()));
    assert_eq!(
        err,
        Err(Error::Rpc(helix_lsp::jsonrpc::Error {
            code: ErrorCode::InvalidParams,
            message: "Invalid params: missing field `token`.".to_string(),
            data: None
        }))
    );
}

#[test]
fn messages_are_told_apart_by_their_members() {
    assert_eq!(classify(true, true), Some(MessageKind::Request));
    assert_eq!(classify(false, true), Some(MessageKind::Notification));
    assert_eq!(classify(true, false), Some(MessageKind::Response));
    assert_eq!(classify(false, false), None);
}

#[test]
fn error_codes_and_their_numbers() {
    let named = [
        (ErrorCode::ParseError, -32700),
        (ErrorCode::InvalidRequest, -32600),
        (ErrorCode::MethodNotFound, -32601),
        (ErrorCode::InvalidParams, -32602),
        (ErrorCode::InternalError, -32603),
        (ErrorCode::ServerError(-32000), -32000),
        (ErrorCode::ServerError(5), 5),
    ];
    for (code, number) in named {
        assert_eq!(code.code(), number);
        assert_eq!(ErrorCode::from_code(number), code);
    }
}

#[test]
fn errors_in_words() {
    assert_eq!(Error::StreamClosed.message(), "server closed the stream");
    assert_eq!(Error::Unhandled.message(), "Unhandled");
    assert_eq!(Error::Timeout(Id::Num(12)).message(), "request 12 timed out");
    assert_eq!(Error::Timeout(Id::Str("a".to_string())).message(), "request a timed out");
    assert_eq!(Error::Timeout(Id::Null).message(), "request null timed out");
    assert_eq!(Error::Parse("eof".to_string()).message(), "failed to parse: eof");
    assert_eq!(Error::IO("broken pipe".to_string()).message(), "IO Error: broken pipe");
    assert_eq!(Error::Other("what".to_string()).message(), "what");
    let rpc = helix_lsp::jsonrpc::Error::invalid_params("bad".to_string());
    assert_eq!(Error::Rpc(rpc).message(), "protocol error: bad");
}

#[test]
fn calls_and_notifications_can_be_copied() {
    let call = MethodCall::parse("window/workDoneProgress/create", object("{\"token\": 7}")).unwrap();
    assert_eq!(call.clone(), call);
    let note = Notification::parse("window/showMessage", object("{\"type\": 3, \"message\": \"hi\"}"))
        .unwrap();
    assert_eq!(note.clone(), note);
}

#[test]
fn invalid_params_say_what_the_parser_found() {
    let params = object("{\"message\": 1}");
    let want = match serde_json::from_value::<lsp_types::ShowMessageParams>(
        serde_json::from_str("{\"message\": 1}").unwrap(),
    ) {
        Err(e) => e.to_string(),
        Ok(_) => panic!("parsed"),
    };
    match Notification::parse("window/showMessage", params) {
        Err(Error::Rpc(e)) => assert_eq!(e.message, format!("Invalid params: {}.", want)),
        other => panic!("{:?}", other),
    }
}
