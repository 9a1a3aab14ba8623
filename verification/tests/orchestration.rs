use laio::client::{kill_session_argv, scoped_target};
use laio::config::{FlexDirection, Pane, Session, Window};
use laio::error::LayoutError;
use laio::node::LayoutNode;
use laio::client::parse_dimensions_reply;
use laio::parser::parse_layout;
use laio::path::{expand_home, sanitize_path};
use laio::plan::session_start_transcript;
use laio::steps::{creation_steps, CreationStep};
use laio::target::Target;

fn pane(
    flex: usize,
    dir: FlexDirection,
    path: Option<&str>,
    commands: &[&str],
    children: Option<Vec<Pane>>,
) -> Pane {
    Pane {
        flex_direction: dir,
        flex,
        path: path.map(|p| p.to_string()),
        style: None,
        commands: commands.iter().map(|c| c.to_string()).collect(),
        env: Vec::new(),
        panes: children,
    }
}

fn strings(v: &[&str]) -> Vec<String> {
    v.iter().map(|s| s.to_string()).collect()
}

fn test_session() -> Session {
    let row = FlexDirection::Row;
    let col = FlexDirection::Column;
    let w1 = Window {
        name: "code".to_string(),
        path: None,
        flex_direction: col,
        panes: vec![
            pane(
                1,
                row,
                None,
                &["echo \"hello\""],
                Some(vec![
                    pane(1, row, None, &[], None),
                    pane(2, row, None, &[], None),
                ]),
            ),
            pane(1, row, Some("src"), &["echo \"hello again\""], None),
        ],
        commands: strings(&["echo \"hello world\""]),
    };
    let w2 = Window {
        name: "infrastructure".to_string(),
        path: None,
        flex_direction: col,
        panes: vec![
            pane(1, row, None, &["echo \"hello again 1\""], None),
            pane(2, row, Some("two"), &["echo \"hello again 2\""], None),
            pane(1, row, Some("three"), &["clear", "echo \"hello again 3\""], None),
        ],
        commands: Vec::new(),
    };
    Session {
        name: "test".to_string(),
        path: Some("/tmp".to_string()),
        startup: Vec::new(),
        shutdown: Vec::new(),
        env: Vec::new(),
        windows: vec![w1, w2],
    }
}

#[test]
fn start_session() {
    let session = test_session();
    let window_ids = strings(&["@1", "@2"]);
    let pane_ids = vec![strings(&["%1", "%2", "%3", "%4"]), strings(&["%5", "%6", "%7"])];
    let t = session_start_transcript(&session, 160, 90, &window_ids, &pane_ids, true, true)
        .unwrap();
    let expected: Vec<Vec<&str>> = vec![
        vec!["tmux", "new-session", "-d", "-s", "test", "-c", "/tmp"],
        vec![
            "tmux", "new-window", "-Pd", "-t", "test", "-n", "code", "-c", "/tmp", "-F",
            "#{window_id}",
        ],
        vec!["tmux", "kill-window", "-t", "test:1"],
        vec!["tmux", "move-window", "-r", "-s", "test", "-t", "test"],
        vec!["tmux", "display-message", "-t", "test:@1", "-p", "#P"],
        vec!["tmux", "select-layout", "-t", "test:@1", "tiled"],
        vec!["tmux", "display-message", "-t", "test:@1", "-p", "#P"],
        vec!["tmux", "select-layout", "-t", "test:@1", "tiled"],
        vec!["tmux", "split-window", "-t", "test:@1", "-c", "/tmp", "-P", "-F", "#{pane_id}"],
        vec!["tmux", "select-layout", "-t", "test:@1", "tiled"],
        vec![
            "tmux", "split-window", "-t", "test:@1", "-c", "/tmp/src", "-P", "-F", "#{pane_id}",
        ],
        vec!["tmux", "select-layout", "-t", "test:@1", "tiled"],
        vec![
            "tmux",
            "select-layout",
            "-t",
            "test:@1",
            "9b85,160x90,0,0{80x90,0,0[80x30,0,0,2,80x59,0,31,3],79x90,81,0,4}",
        ],
        vec![
            "tmux",
            "new-window",
            "-Pd",
            "-t",
            "test",
            "-n",
            "infrastructure",
            "-c",
            "/tmp",
            "-F",
            "#{window_id}",
        ],
        vec!["tmux", "display-message", "-t", "test:@2", "-p", "#P"],
        vec!["tmux", "select-layout", "-t", "test:@2", "tiled"],
        vec!["tmux", "split-window", "-t", "test:@2", "-c", "/tmp/two", "-P", "-F", "#{pane_id}"],
        vec!["tmux", "select-layout", "-t", "test:@2", "tiled"],
        vec![
            "tmux", "split-window", "-t", "test:@2", "-c", "/tmp/three", "-P", "-F", "#{pane_id}",
        ],
        vec!["tmux", "select-layout", "-t", "test:@2", "tiled"],
        vec![
            "tmux",
            "select-layout",
            "-t",
            "test:@2",
            "c301,160x90,0,0{40x90,0,0,5,80x90,41,0,6,38x90,122,0,7}",
        ],
        vec!["tmux", "switch-client", "-t", "test"],
        vec!["tmux", "send-keys", "-t", "test:@1", "echo \"hello world\"", "C-m"],
        vec!["tmux", "send-keys", "-t", "test:%1", "echo \"hello\"", "C-m"],
        vec!["tmux", "send-keys", "-t", "test:%4", "echo \"hello again\"", "C-m"],
        vec!["tmux", "send-keys", "-t", "test:%5", "echo \"hello again 1\"", "C-m"],
        vec!["tmux", "send-keys", "-t", "test:%6", "echo \"hello again 2\"", "C-m"],
        vec!["tmux", "send-keys", "-t", "test:%7", "clear", "C-m"],
        vec!["tmux", "send-keys", "-t", "test:%7", "echo \"hello again 3\"", "C-m"],
    ];
    assert_eq!(t.len(), expected.len());
    for (i, (got, want)) in t.iter().zip(expected.iter()).enumerate() {
        let got: Vec<&str> = got.iter().map(|s| s.as_str()).collect();
        assert_eq!(&got, want, "command {} differs", i);
    }
}

#[test]
fn command_ordering() {
    // every send-keys comes after every select-layout, which comes after
    // every split-window of the same window
    let session = test_session();
    let window_ids = strings(&["@1", "@2"]);
    let pane_ids = vec![strings(&["%1", "%2", "%3", "%4"]), strings(&["%5", "%6", "%7"])];
    let t = session_start_transcript(&session, 160, 90, &window_ids, &pane_ids, false, false)
        .unwrap();
    let mut last_select: Option<usize> = None;
    let mut first_send: Option<usize> = None;
    for (i, cmd) in t.iter().enumerate() {
        match cmd[1].as_str() {
            "select-layout" => last_select = Some(i),
            "send-keys" => {
                if first_send.is_none() {
                    first_send = Some(i);
                }
            }
            _ => {}
        }
    }
    assert!(last_select.unwrap() < first_send.unwrap());
    for (i, cmd) in t.iter().enumerate() {
        if cmd[1] == "split-window" {
            let target = &cmd[3];
            let final_layout = t
                .iter()
                .position(|c| c[1] == "select-layout" && &c[3] == target && c[4] != "tiled")
                .unwrap();
            assert!(i < final_layout, "split at {} after final layout", i);
        }
    }
}

#[test]
fn split_count_is_leaves_minus_one() {
    let session = test_session();
    let window_ids = strings(&["@1", "@2"]);
    let pane_ids = vec![strings(&["%1", "%2", "%3", "%4"]), strings(&["%5", "%6", "%7"])];
    let t = session_start_transcript(&session, 160, 90, &window_ids, &pane_ids, false, false)
        .unwrap();
    let splits = t.iter().filter(|c| c[1] == "split-window").count();
    // window one has three leaves, window two has three leaves
    assert_eq!(splits, (3 - 1) + (3 - 1));
}

#[test]
fn transcript_underflow() {
    // ten panes cannot fit into four cells with their dividers
    let mut session = test_session();
    session.windows.truncate(1);
    session.windows[0].panes =
        (0..10).map(|_| pane(1, FlexDirection::Row, None, &[], None)).collect();
    let window_ids = strings(&["@1"]);
    let pane_ids = vec![strings(&[
        "%0", "%1", "%2", "%3", "%4", "%5", "%6", "%7", "%8", "%9",
    ])];
    let r = session_start_transcript(&session, 4, 4, &window_ids, &pane_ids, false, false);
    assert_eq!(r, Err(LayoutError::GeometryUnderflow));
}

#[test]
fn stop_session() {
    let argv = kill_session_argv(&"test".to_string());
    assert_eq!(argv, strings(&["tmux", "kill-session", "-t", "test"]));
}

#[test]
fn creation_plan_paths() {
    // the first pane of each sibling list reuses the current pane; the
    // rest are split with their resolved paths
    let row = FlexDirection::Row;
    let panes = vec![
        pane(1, row, Some("a"), &[], Some(vec![
            pane(1, row, None, &[], None),
            pane(1, row, Some("b"), &[], None),
        ])),
        pane(1, row, Some("/abs"), &[], None),
    ];
    let steps = creation_steps(&panes, &"/base".to_string());
    assert_eq!(steps.len(), 4);
    assert!(matches!(steps[0], CreationStep::UseCurrentPane));
    assert!(matches!(steps[1], CreationStep::UseCurrentPane));
    match &steps[2] {
        CreationStep::Split { path } => assert_eq!(path, "/base/a/b"),
        _ => panic!("expected a split"),
    }
    match &steps[3] {
        CreationStep::Split { path } => assert_eq!(path, "/abs"),
        _ => panic!("expected a split"),
    }
}

#[test]
fn path_resolution() {
    let base = "/base".to_string();
    assert_eq!(sanitize_path(&Some("/abs/p".to_string()), &base), "/abs/p");
    assert_eq!(sanitize_path(&Some("~/p".to_string()), &base), "~/p");
    assert_eq!(sanitize_path(&Some(".".to_string()), &base), "/base");
    assert_eq!(sanitize_path(&Some("rel".to_string()), &base), "/base/rel");
    assert_eq!(sanitize_path(&None, &base), "/base");
}

#[test]
fn window_validation() {
    let w = Window {
        name: "w".to_string(),
        path: None,
        flex_direction: FlexDirection::Row,
        panes: Vec::new(),
        commands: Vec::new(),
    };
    assert_eq!(w.validate(), Err("Panes cannot be empty".to_string()));
}

#[test]
fn session_validation_aggregates() {
    let empty_window = Window {
        name: "w".to_string(),
        path: None,
        flex_direction: FlexDirection::Row,
        panes: Vec::new(),
        commands: Vec::new(),
    };
    let ok_window = Window {
        name: "v".to_string(),
        path: None,
        flex_direction: FlexDirection::Row,
        panes: vec![pane(1, FlexDirection::Row, None, &[], None)],
        commands: Vec::new(),
    };
    let mut s = test_session();
    s.windows = Vec::new();
    assert_eq!(s.validate(), Err(vec!["Windows cannot be empty".to_string()]));
    s.windows = vec![empty_window, ok_window];
    assert_eq!(s.validate(), Err(vec!["Panes cannot be empty".to_string()]));
    let mut good = test_session();
    assert_eq!(good.validate(), Ok(()));
    good.windows[0].panes = Vec::new();
    good.windows[1].panes = Vec::new();
    assert_eq!(
        good.validate(),
        Err(vec![
            "Panes cannot be empty".to_string(),
            "Panes cannot be empty".to_string(),
        ])
    );
}

#[test]
fn target_composition() {
    let t = Target::new("my session").window("@1").pane("%2");
    assert_eq!(t.to_target_string(), "\"my session\":@1.%2");
    let t2 = Target::new("s");
    assert_eq!(t2.to_target_string(), "\"s\"");
    let t3 = Target::new("s").window("@3");
    assert_eq!(t3.to_target_string(), "\"s\":@3");
    assert_eq!(scoped_target(&"test".to_string(), &"%7".to_string()), "test:%7");
}

#[test]
fn window_from_tokens_defaults() {
    let node = parse_layout("80x24,0,0,1").unwrap();
    let w = Window::from_tokens(&None, &node);
    assert_eq!(w.name, "foo");
    assert_eq!(w.panes.len(), 1);
    assert_eq!(w.panes[0].flex, 1);
    let named = Window::from_tokens(&Some("main".to_string()), &node);
    assert_eq!(named.name, "main");
}

#[test]
fn session_from_tokens_defaults() {
    let node = parse_layout("160x90,0,0{80x90,0,0,0,79x90,81,0,1}").unwrap();
    let tokens: Vec<(Option<String>, LayoutNode)> = vec![(Some("w".to_string()), node)];
    let s = Session::from_tokens(&"live".to_string(), &tokens);
    assert_eq!(s.name, "live");
    assert_eq!(s.path.as_deref(), Some("."));
    assert!(s.startup.is_empty());
    assert!(s.shutdown.is_empty());
    assert_eq!(s.windows.len(), 1);
    assert!(matches!(s.windows[0].flex_direction, FlexDirection::Column));
}

#[test]
fn home_expansion() {
    assert_eq!(expand_home("~/projects", "/home/u"), "/home/u/projects");
    assert_eq!(expand_home("/tmp/x", "/home/u"), "/tmp/x");
    assert_eq!(expand_home("~", "/home/u"), "/home/u");
    assert_eq!(expand_home("a~b~c", "/h"), "a/hb/hc");
    assert_eq!(expand_home("", "/h"), "");
}

#[test]
fn dimensions_reply_parsing() {
    assert_eq!(parse_dimensions_reply("width: 160\nheight: 90"), Some((160, 90)));
    assert_eq!(parse_dimensions_reply("width: 80\nheight: 24"), Some((80, 24)));
    assert_eq!(parse_dimensions_reply("width: 160"), None);
    assert_eq!(parse_dimensions_reply("width: \nheight: 90"), None);
    assert_eq!(parse_dimensions_reply("height: 90\nwidth: 160"), None);
    assert_eq!(parse_dimensions_reply(""), None);
    assert_eq!(parse_dimensions_reply("width: 160\nheight: 90\n"), None);
}
