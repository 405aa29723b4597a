use serena_mcp::cli::{run, Cli, Mode, StartError, Transport, DEFAULT_CONTEXT};
use serena_mcp::files::{list_dir, read_file, write_file, EntryType, WriteOperation};
use serena_mcp::find::default_true;
use serena_mcp::memory::{
    bytes_before, delete_memory, list_memories, read_memory, write_memory, MemoryEntry,
    MemoryFilter, WriteAction,
};
use serena_mcp::paths::{
    join_path, resolve_path, state_dir, state_file, PathError, StateDir, StateDirError,
};
use serena_mcp::rpc::{
    call_tool, handle_request, is_blank_line, jsonrpc_tag, CallError, JsonRpcError, Method,
};

fn cli(transport: Transport) -> Cli {
    Cli {
        project: None,
        context: DEFAULT_CONTEXT.to_string(),
        modes: vec![Mode::Planning],
        transport,
    }
}

fn note(id: &str, namespace: &str, content: &str, created_at: &str) -> MemoryEntry {
    MemoryEntry {
        id: id.as_bytes().to_vec(),
        namespace: namespace.as_bytes().to_vec(),
        content: content.as_bytes().to_vec(),
        tags: Vec::new(),
        metadata: Some(Vec::new()),
        created_at: created_at.as_bytes().to_vec(),
        updated_at: None,
    }
}

fn filter() -> MemoryFilter {
    MemoryFilter { id: None, namespace: None, tag: None, query: None }
}

#[test]
fn only_stdio_is_served() {
    assert_eq!(run(&cli(Transport::Stdio)), Ok(()));
    assert_eq!(run(&cli(Transport::Sse)), Err(StartError::UnsupportedTransport(Transport::Sse)));
    assert_eq!(
        run(&cli(Transport::StreamableHttp)),
        Err(StartError::UnsupportedTransport(Transport::StreamableHttp))
    );
}

#[test]
fn modes_and_transports_have_names() {
    assert_eq!(Mode::Planning.as_str(), "planning");
    assert_eq!(Mode::Editing.as_str(), "editing");
    assert_eq!(Mode::Interactive.as_str(), "interactive");
    assert_eq!(Transport::Stdio.as_str(), "stdio");
    assert_eq!(Transport::Sse.as_str(), "sse");
    assert_eq!(Transport::StreamableHttp.as_str(), "streamable-http");
    assert_eq!(DEFAULT_CONTEXT, "desktop-app");
    assert!(default_true());
}

#[test]
fn requests_are_told_by_method() {
    assert_eq!(jsonrpc_tag(), "2.0");
    assert_eq!(handle_request(b"ping"), Method::Ping);
    assert_eq!(handle_request(b"tools.list"), Method::ListTools);
    assert_eq!(handle_request(b"tools.call"), Method::CallTool);
    assert_eq!(handle_request(b"Ping"), Method::Unknown);
    assert_eq!(handle_request(b""), Method::Unknown);
    assert!(is_blank_line(b"  \t"));
    assert!(is_blank_line(b""));
    assert!(!is_blank_line(b" {} "));
}

#[test]
fn errors_have_their_codes() {
    assert_eq!(JsonRpcError::ParseError.code(), -32700);
    assert_eq!(JsonRpcError::MethodNotFound.code(), -32601);
    assert_eq!(JsonRpcError::InvalidParams.code(), -32602);
    assert_eq!(JsonRpcError::InternalError.code(), -32603);
    assert_eq!(JsonRpcError::ParseError.message(), "Parse error");
    assert_eq!(JsonRpcError::MethodNotFound.message(), "Method not found");
    assert_eq!(JsonRpcError::InvalidParams.message(), "Invalid params");
    assert_eq!(JsonRpcError::InternalError.message(), "Internal error");
}

#[test]
fn calls_need_an_object_that_names_a_tool() {
    assert_eq!(call_tool(true, true), Ok(()));
    assert_eq!(call_tool(false, true), Err(CallError::ExpectedObject));
    assert_eq!(call_tool(false, false), Err(CallError::ExpectedObject));
    assert_eq!(call_tool(true, false), Err(CallError::MissingTool));
    assert_eq!(CallError::ExpectedObject.details(), "Expected object params");
    assert_eq!(CallError::MissingTool.details(), "Missing `tool` string");
}

#[test]
fn empty_paths_are_refused() {
    assert_eq!(resolve_path(b"", Some(b"/h"), Some(b"/w")), Err(PathError::Empty));
    assert_eq!(resolve_path(b"  \t\n", Some(b"/h"), Some(b"/w")), Err(PathError::Empty));
    assert_eq!(resolve_path(b"", None, None), Err(PathError::Empty));
}

#[test]
fn paths_under_home_lose_one_sign() {
    assert_eq!(resolve_path(b"~/a/b", Some(b"/h"), Some(b"/w")), Ok(b"/h/a/b".to_vec()));
    assert_eq!(resolve_path(b"~/~/x", Some(b"/h"), Some(b"/w")), Ok(b"/h/~/x".to_vec()));
    assert_eq!(resolve_path(b"~/", Some(b"/h"), None), Ok(b"/h/".to_vec()));
    assert_eq!(resolve_path(b"~/a", Some(b"/h/"), None), Ok(b"/h/a".to_vec()));
    assert_eq!(resolve_path(b"~//etc", Some(b"/h"), None), Ok(b"/etc".to_vec()));
    assert_eq!(resolve_path(b"~/a", None, Some(b"/w")), Err(PathError::HomeNotSet));
}

#[test]
fn absolute_paths_stand_for_themselves() {
    assert_eq!(resolve_path(b"/abs/x", None, None), Ok(b"/abs/x".to_vec()));
    assert_eq!(resolve_path(b"/", Some(b"/h"), Some(b"/w")), Ok(b"/".to_vec()));
}

#[test]
fn relative_paths_lead_on_from_the_working_directory() {
    assert_eq!(resolve_path(b"a/b", Some(b"/h"), Some(b"/w")), Ok(b"/w/a/b".to_vec()));
    assert_eq!(resolve_path(b"~", Some(b"/h"), Some(b"/w")), Ok(b"/w/~".to_vec()));
    assert_eq!(resolve_path(b" ~/x", Some(b"/h"), Some(b"/w/")), Ok(b"/w/ ~/x".to_vec()));
    assert_eq!(resolve_path(b"rel/~/x", None, Some(b"/w")), Ok(b"/w/rel/~/x".to_vec()));
    assert_eq!(resolve_path(b"a", Some(b"/h"), None), Err(PathError::NoWorkingDirectory));
}

#[test]
fn state_is_kept_where_named_or_under_home() {
    match state_dir(Some(b"/s"), Some(b"/h")) {
        Ok(StateDir::Named { dir }) => assert_eq!(dir, b"/s".to_vec()),
        _ => panic!("the named directory was expected"),
    }
    match state_dir(None, Some(b"/h")) {
        Ok(StateDir::UnderHome { home }) => assert_eq!(home, b"/h".to_vec()),
        _ => panic!("the home directory was expected"),
    }
    assert!(matches!(state_dir(None, None), Err(StateDirError::HomeNotSet)));
    assert_eq!(state_file(b"/s", b"memories.json"), b"/s/memories.json".to_vec());
    assert_eq!(state_file(b"/s/", b"a"), b"/s/a".to_vec());
    assert_eq!(state_file(b"", b"a"), b"a".to_vec());
    assert_eq!(join_path(b"/s", b"/a"), b"/a".to_vec());
    assert_eq!(join_path(b"/s", b""), b"/s/".to_vec());
}

#[test]
fn files_are_shown_whole_or_cut() {
    assert_eq!(read_file(b"hello", None), (b"hello".to_vec(), false));
    assert_eq!(read_file(b"hello", Some(5)), (b"hello".to_vec(), false));
    assert_eq!(read_file(b"hello", Some(2)), ("he\u{2026}".as_bytes().to_vec(), true));
}

#[test]
fn directory_entries_are_listed_by_kind() {
    assert!(list_dir(b"a", false));
    assert!(!list_dir(b".a", false));
    assert!(list_dir(b".a", true));
    assert!(list_dir(b"", false));
    assert_eq!(EntryType::of(true, true, true), EntryType::Directory);
    assert_eq!(EntryType::of(false, true, true), EntryType::File);
    assert_eq!(EntryType::of(false, false, true), EntryType::Symlink);
    assert_eq!(EntryType::of(false, false, false), EntryType::Other);
    assert_eq!(EntryType::Directory.as_str(), "directory");
    assert_eq!(EntryType::File.as_str(), "file");
    assert_eq!(EntryType::Symlink.as_str(), "symlink");
    assert_eq!(EntryType::Other.as_str(), "other");
}

#[test]
fn written_content_may_get_a_line_feed() {
    assert_eq!(write_file(b"a".to_vec(), false, true), (b"a\n".to_vec(), WriteOperation::Overwrite));
    assert_eq!(write_file(b"a\n".to_vec(), true, true), (b"a\n".to_vec(), WriteOperation::Append));
    assert_eq!(write_file(b"a".to_vec(), true, false), (b"a".to_vec(), WriteOperation::Append));
    assert_eq!(write_file(Vec::new(), false, true), (b"\n".to_vec(), WriteOperation::Overwrite));
    assert_eq!(WriteOperation::Append.as_str(), "append");
    assert_eq!(WriteOperation::Overwrite.as_str(), "overwrite");
}

#[test]
fn notes_answer_a_filter() {
    let mut entry = note("m1", "work", "Fix the Parser", "t1");
    entry.tags = vec![b"bug".to_vec(), b"urgent".to_vec()];
    entry.metadata = Some(vec![b"\"High\"".to_vec(), b"3".to_vec()]);
    assert!(entry.matches(&filter()));
    let with = |f: fn(&mut MemoryFilter)| {
        let mut wanted = filter();
        f(&mut wanted);
        wanted
    };
    assert!(entry.matches(&with(|f| f.id = Some(b"m1".to_vec()))));
    assert!(!entry.matches(&with(|f| f.id = Some(b"m2".to_vec()))));
    assert!(entry.matches(&with(|f| f.namespace = Some(b"work".to_vec()))));
    assert!(!entry.matches(&with(|f| f.namespace = Some(b"Work".to_vec()))));
    assert!(entry.matches(&with(|f| f.tag = Some(b"urgent".to_vec()))));
    assert!(!entry.matches(&with(|f| f.tag = Some(b"urg".to_vec()))));
    assert!(entry.matches(&with(|f| f.query = Some(b"PARSER".to_vec()))));
    assert!(entry.matches(&with(|f| f.query = Some(b"high".to_vec()))));
    assert!(!entry.matches(&with(|f| f.query = Some(b"low".to_vec()))));
    assert!(!entry.matches(&with(|f| {
        f.query = Some(b"parser".to_vec());
        f.tag = Some(b"none".to_vec());
    })));
    entry.metadata = None;
    assert!(!entry.matches(&with(|f| f.query = Some(b"high".to_vec()))));
}

#[test]
fn notes_are_read_up_to_a_limit() {
    let entries = vec![
        note("a", "x", "one", "1"),
        note("b", "y", "two", "2"),
        note("c", "x", "three", "3"),
        note("d", "x", "four", "4"),
    ];
    let mut wanted = filter();
    wanted.namespace = Some(b"x".to_vec());
    assert_eq!(read_memory(&entries, &wanted, 20), vec![0, 2, 3]);
    assert_eq!(read_memory(&entries, &wanted, 2), vec![0, 2]);
    assert_eq!(read_memory(&entries, &wanted, 0), Vec::<usize>::new());
    assert_eq!(read_memory(&entries, &filter(), 3), vec![0, 1, 2]);
    assert_eq!(read_memory(&Vec::new(), &filter(), 3), Vec::<usize>::new());
}

#[test]
fn a_write_changes_the_note_with_the_id() {
    let entries = vec![note("a", "x", "one", "1"), note("b", "y", "two", "2"), note("a", "z", "3", "3")];
    assert_eq!(write_memory(&entries, Some(b"b")), WriteAction::Updated(1));
    assert_eq!(write_memory(&entries, Some(b"a")), WriteAction::Updated(0));
    assert_eq!(write_memory(&entries, Some(b"c")), WriteAction::Created);
    assert_eq!(write_memory(&entries, None), WriteAction::Created);
}

#[test]
fn deleting_keeps_the_other_notes() {
    let entries = vec![note("a", "x", "one", "1"), note("b", "y", "two", "2"), note("a", "z", "3", "3")];
    assert_eq!(delete_memory(&entries, b"a"), (vec![1], true));
    assert_eq!(delete_memory(&entries, b"b"), (vec![0, 2], true));
    assert_eq!(delete_memory(&entries, b"c"), (vec![0, 1, 2], false));
}

#[test]
fn notes_are_listed_newest_first() {
    let entries = vec![
        note("a", "x", "", "2024-01-02"),
        note("b", "y", "", "2024-01-05"),
        note("c", "x", "", "2024-01-03"),
        note("d", "x", "", "2024-01-02"),
        note("e", "x", "", "2024-01-04"),
    ];
    assert_eq!(list_memories(&entries, None, 0, 50), vec![1, 4, 2, 0, 3]);
    assert_eq!(list_memories(&entries, Some(b"x"), 0, 50), vec![4, 2, 0, 3]);
    assert_eq!(list_memories(&entries, Some(b"x"), 1, 2), vec![2, 0]);
    assert_eq!(list_memories(&entries, Some(b"x"), 3, 2), vec![3]);
    assert_eq!(list_memories(&entries, Some(b"x"), 4, 2), Vec::<usize>::new());
    assert_eq!(list_memories(&entries, Some(b"x"), 0, 0), Vec::<usize>::new());
    assert_eq!(list_memories(&entries, Some(b"none"), 0, 5), Vec::<usize>::new());
    assert_eq!(list_memories(&entries, None, 2, usize::MAX), vec![2, 0, 3]);
}

#[test]
fn texts_are_ordered_byte_by_byte() {
    let samples = ["", "a", "ab", "b", "aa", "a\u{e9}", "B", "abc"];
    for a in samples {
        for b in samples {
            assert_eq!(bytes_before(a.as_bytes(), b.as_bytes()), a < b, "{:?} {:?}", a, b);
        }
    }
}
