use language_client::client::RpcClient;
use language_client::vim::QuickfixEntry;
use language_client::vim::is_class_path;
use language_client::worker::LCError;
use language_client::worker::LanguageClientWorker;

fn editor_worker() -> LanguageClientWorker {
    let mut w = LanguageClientWorker::new();
    w.register_connection(None, RpcClient::new(None));
    w
}

fn frame_text(bytes: Vec<u8>) -> String {
    let text = String::from_utf8(bytes).unwrap();
    let split = text.find("\r\n\r\n").unwrap();
    text[split + 4..].to_string()
}

#[test]
fn echo_sends_a_notification() {
    let w = editor_worker();
    let (i, bytes) = w.echo(b"hello").unwrap();
    assert_eq!(i, 0);
    assert_eq!(
        frame_text(bytes),
        r#"{"jsonrpc":"2.0","method":"s:Echo","params":"hello"}"#
    );
    let (_, bytes) = w.echomsg(b"kept").unwrap();
    assert_eq!(
        frame_text(bytes),
        r#"{"jsonrpc":"2.0","method":"s:Echomsg","params":"kept"}"#
    );
    let (_, bytes) = w.echoerr(b"bad").unwrap();
    assert!(frame_text(bytes).contains("s:Echoerr"));
    let (_, bytes) = w.echowarn(b"careful").unwrap();
    assert!(frame_text(bytes).contains("s:Echowarn"));
}

#[test]
fn ellipsis_echo_joins_lines() {
    let w = editor_worker();
    let (_, bytes) = w.echo_ellipsis(b"first\nsecond\r\nthird\n").unwrap();
    assert_eq!(
        frame_text(bytes),
        r#"{"jsonrpc":"2.0","method":"s:EchoEllipsis","params":"first second third"}"#
    );
    let (_, bytes) = w.echomsg_ellipsis(b"a\nb").unwrap();
    assert_eq!(
        frame_text(bytes),
        r#"{"jsonrpc":"2.0","method":"s:EchomsgEllipsis","params":"a b"}"#
    );
}

#[test]
fn cursor_moves_by_line_and_column() {
    let w = editor_worker();
    let (_, bytes) = w.cursor(3, 14).unwrap();
    assert_eq!(
        frame_text(bytes),
        r#"{"jsonrpc":"2.0","method":"cursor","params":[3,14]}"#
    );
}

#[test]
fn command_is_an_execute_call() {
    let mut w = editor_worker();
    let (i, id, bytes) = w.command(b"normal! gg", 50).unwrap();
    assert_eq!((i, id), (0, 1));
    assert_eq!(
        frame_text(bytes),
        r#"{"jsonrpc":"2.0","id":1,"method":"execute","params":"normal! gg"}"#
    );
}

#[test]
fn setline_carries_the_lines() {
    let mut w = editor_worker();
    let text = vec![b"fn main() {".to_vec(), b"}".to_vec()];
    let (_, _, bytes) = w.setline(1, &text, 51).unwrap();
    assert_eq!(
        frame_text(bytes),
        r#"{"jsonrpc":"2.0","id":1,"method":"setline","params":[1,["fn main() {","}"]]}"#
    );
}

#[test]
fn edit_uses_given_goto_or_default() {
    let mut w = editor_worker();
    let (_, _, bytes) = w.edit(&None, b"/src/lib.rs", 52).unwrap();
    assert_eq!(
        frame_text(bytes),
        r#"{"jsonrpc":"2.0","id":1,"method":"s:Edit","params":["edit","/src/lib.rs"]}"#
    );
    let (_, _, bytes) = w.edit(&Some(b"vsplit".to_vec()), b"/a.go", 53).unwrap();
    assert_eq!(
        frame_text(bytes),
        r#"{"jsonrpc":"2.0","id":2,"method":"s:Edit","params":["vsplit","/a.go"]}"#
    );
}

#[test]
fn class_paths_are_recognized() {
    assert!(is_class_path(b"jdt://contents/rt.jar/java.lang/String.class"));
    assert!(!is_class_path(b"/home/user/main.java"));
    assert!(!is_class_path(b"jdt:/"));
}

#[test]
fn class_file_contents_asks_the_java_backend() {
    let mut w = editor_worker();
    let (_, _, bytes) = w.class_file_contents(b"jdt://x.class", 54).unwrap();
    assert_eq!(
        frame_text(bytes),
        r#"{"jsonrpc":"2.0","id":1,"method":"java/classFileContents","params":{"languageId":"java","uri":"jdt://x.class"}}"#
    );
}

#[test]
fn quickfix_and_location_lists() {
    let mut w = editor_worker();
    let list = vec![QuickfixEntry {
        filename: b"/src/main.rs".to_vec(),
        lnum: 3,
        col: 7,
        text: b"mismatched types".to_vec(),
    }];
    let (_, _, bytes) = w.setqflist(&list, b"r", 60).unwrap();
    assert_eq!(
        frame_text(bytes),
        r#"{"jsonrpc":"2.0","id":1,"method":"setqflist","params":[[{"filename":"/src/main.rs","lnum":3,"col":7,"text":"mismatched types"}],"r"]}"#
    );
    let (_, _, bytes) = w.setqflist_title(b"Diagnostics", 61).unwrap();
    assert_eq!(
        frame_text(bytes),
        r#"{"jsonrpc":"2.0","id":2,"method":"setqflist","params":[[],"a",{"title":"Diagnostics"}]}"#
    );
    let (_, _, bytes) = w.setloclist(&list, b"r", 62).unwrap();
    assert_eq!(
        frame_text(bytes),
        r#"{"jsonrpc":"2.0","id":3,"method":"setloclist","params":[0,[{"filename":"/src/main.rs","lnum":3,"col":7,"text":"mismatched types"}],"r"]}"#
    );
    let (_, _, bytes) = w.setloclist_title(b"References", 63).unwrap();
    assert_eq!(
        frame_text(bytes),
        r#"{"jsonrpc":"2.0","id":4,"method":"setloclist","params":[0,[],"a",{"title":"References"}]}"#
    );
}

#[test]
fn editor_ops_need_the_editor_connection() {
    let mut w = LanguageClientWorker::new();
    assert_eq!(w.echo(b"x"), Err(LCError::UnknownBackend));
    assert_eq!(w.command(b"q", 1), Err(LCError::UnknownBackend));
}

#[test]
fn eval_wraps_the_expression() {
    let mut w = editor_worker();
    let (_, _, bytes) = w.eval(b"line('.')", 70).unwrap();
    assert_eq!(
        frame_text(bytes),
        r#"{"jsonrpc":"2.0","id":1,"method":"eval","params":"line('.')"}"#
    );
}
