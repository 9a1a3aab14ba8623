use laio::checksum::{layout_checksum, layout_with_checksum};
use laio::config::{FlexDirection, Pane, SplitType};
use laio::engine::{build_window_layout, clean_pane_id, layout_list};
use laio::error::LayoutError;
use laio::node::{render, LayoutNode};
use laio::parser::parse_layout;
use laio::reducer::{gcd, gcd_vec, round};
use laio::text::{dec_string, parse_number};

fn leaf(flex: usize, path: Option<&str>) -> Pane {
    Pane {
        flex_direction: FlexDirection::Row,
        flex,
        path: path.map(|p| p.to_string()),
        style: None,
        commands: Vec::new(),
        env: Vec::new(),
        panes: None,
    }
}

fn parent(flex: usize, dir: FlexDirection, children: Vec<Pane>) -> Pane {
    Pane {
        flex_direction: dir,
        flex,
        path: None,
        style: None,
        commands: Vec::new(),
        env: Vec::new(),
        panes: Some(children),
    }
}

fn ids(v: &[&str]) -> Vec<String> {
    v.iter().map(|s| s.to_string()).collect()
}

#[test]
fn decimal_rendering() {
    assert_eq!(dec_string(0), "0");
    assert_eq!(dec_string(7), "7");
    assert_eq!(dec_string(65535), "65535");
}

#[test]
fn number_parsing() {
    assert_eq!(parse_number("160x90", 0), Ok((160, 3)));
    assert_eq!(parse_number("007", 0), Err(LayoutError::LayoutParseError { offset: 0 }));
    assert_eq!(parse_number("x", 0), Err(LayoutError::LayoutParseError { offset: 0 }));
    // ten digits exceeding 32 bits are rejected
    assert!(parse_number("99999999999", 0).is_err());
}

#[test]
fn checksum_reference_values() {
    // the checksum tmux computes for these bodies
    let body = "160x90,0,0{80x90,0,0[80x30,0,0,2,80x59,0,31,3],79x90,81,0,4}";
    assert_eq!(layout_checksum(body), 0x9b85);
    let full = layout_with_checksum(body);
    assert_eq!(full, format!("9b85,{}", body));
    let body2 = "160x90,0,0{40x90,0,0,5,80x90,41,0,6,38x90,122,0,7}";
    assert_eq!(layout_with_checksum(body2), format!("c301,{}", body2));
}

#[test]
fn checksum_of_empty_body_is_zero() {
    assert_eq!(layout_checksum(""), 0);
    assert_eq!(layout_with_checksum(""), "0000,");
}

#[test]
fn single_pane_window() {
    // a lone pane takes the whole window and issues no split
    let panes = vec![leaf(1, None)];
    let node = build_window_layout(&panes, FlexDirection::Row, 80, 24, &ids(&["%1"])).unwrap();
    assert_eq!(render(&node), "80x24,0,0,1");
}

#[test]
fn horizontal_split_one_to_one() {
    // the last pane absorbs the slack left by the divider
    let panes = vec![leaf(1, None), leaf(1, None)];
    let node = build_window_layout(&panes, FlexDirection::Column, 160, 90, &ids(&["%0", "%1"]))
        .unwrap();
    assert_eq!(render(&node), "160x90,0,0{80x90,0,0,0,79x90,81,0,1}");
}

#[test]
fn nested_split() {
    let inner = parent(1, FlexDirection::Row, vec![leaf(1, None), leaf(2, None)]);
    let panes = vec![inner, leaf(1, None)];
    let node = build_window_layout(
        &panes,
        FlexDirection::Column,
        160,
        90,
        &ids(&["%1", "%2", "%3", "%4"]),
    )
    .unwrap();
    let body = render(&node);
    assert_eq!(body, "160x90,0,0{80x90,0,0[80x30,0,0,2,80x59,0,31,3],79x90,81,0,4}");
    assert_eq!(layout_with_checksum(&body), format!("9b85,{}", body));
}

#[test]
fn three_way_unequal_split() {
    let panes = vec![leaf(1, None), leaf(2, None), leaf(1, None)];
    let node = build_window_layout(&panes, FlexDirection::Column, 160, 90, &ids(&["%5", "%6", "%7"]))
        .unwrap();
    assert_eq!(render(&node), "160x90,0,0{40x90,0,0,5,80x90,41,0,6,38x90,122,0,7}");
}

#[test]
fn geometry_sums_in_emitted_layout() {
    // widths along the partitioned axis sum to the extent minus dividers
    let panes = vec![leaf(1, None), leaf(2, None), leaf(1, None)];
    let node = build_window_layout(&panes, FlexDirection::Column, 160, 90, &ids(&["%5", "%6", "%7"]))
        .unwrap();
    match node {
        LayoutNode::Split { width, height, split_type, ref children, .. } => {
            assert_eq!(width, 160);
            assert_eq!(height, 90);
            assert!(matches!(split_type, SplitType::Horizontal));
            assert_eq!(children.len(), 3);
            let mut sum = 0;
            for c in children.iter() {
                match c {
                    LayoutNode::Leaf { width, height, .. } => {
                        sum += width;
                        assert_eq!(*height, 90);
                    }
                    _ => panic!("expected leaves"),
                }
            }
            assert_eq!(sum + children.len() - 1, 160);
        }
        _ => panic!("expected a container"),
    }
}

#[test]
fn geometry_underflow_is_reported() {
    // ten panes cannot fit into four cells with their dividers
    let panes: Vec<Pane> = (0..10).map(|_| leaf(1, None)).collect();
    let r = build_window_layout(&panes, FlexDirection::Column, 4, 4, &ids(&[
        "%0", "%1", "%2", "%3", "%4", "%5", "%6", "%7", "%8", "%9",
    ]));
    assert!(matches!(r, Err(LayoutError::GeometryUnderflow)));
}

#[test]
fn layout_list_returns_next_visit_index() {
    let inner = parent(1, FlexDirection::Row, vec![leaf(1, None), leaf(2, None)]);
    let panes = vec![inner, leaf(1, None)];
    let (nodes, next) = layout_list(
        &panes,
        FlexDirection::Column,
        160,
        90,
        0,
        0,
        true,
        &ids(&["%1", "%2", "%3", "%4"]),
        0,
    )
    .unwrap();
    assert_eq!(nodes.len(), 2);
    assert_eq!(next, 4);
}

#[test]
fn pane_id_markers_are_stripped() {
    assert_eq!(clean_pane_id(&"%12".to_string()), "12");
    assert_eq!(clean_pane_id(&"7".to_string()), "7");
    assert_eq!(clean_pane_id(&"".to_string()), "");
}

#[test]
fn parse_rejects_garbage() {
    assert!(matches!(
        parse_layout("hello"),
        Err(LayoutError::LayoutParseError { .. })
    ));
    assert!(matches!(
        parse_layout("160x90,0,0{80x90,0,0,0"),
        Err(LayoutError::LayoutParseError { .. })
    ));
    assert!(matches!(
        parse_layout(""),
        Err(LayoutError::LayoutParseError { .. })
    ));
}

#[test]
fn parse_serialize_round_trip() {
    let full = "9b85,160x90,0,0{80x90,0,0[80x30,0,0,2,80x59,0,31,3],79x90,81,0,4}";
    let node = parse_layout(full).unwrap();
    let body = render(&node);
    assert_eq!(format!("9b85,{}", body), full);
    // the same body without the checksum prefix parses to the same tree
    let node2 = parse_layout(&body).unwrap();
    assert_eq!(render(&node2), body);
}

#[test]
fn parse_structure() {
    let node = parse_layout("160x90,0,0{40x90,0,0,5,80x90,41,0,6,38x90,122,0,7}").unwrap();
    match node {
        LayoutNode::Split { width, height, x, y, split_type, children } => {
            assert_eq!((width, height, x, y), (160, 90, 0, 0));
            assert!(matches!(split_type, SplitType::Horizontal));
            assert_eq!(children.len(), 3);
            match &children[1] {
                LayoutNode::Leaf { width, height, x, y, pane_id } => {
                    assert_eq!((*width, *height, *x, *y), (80, 90, 41, 0));
                    assert_eq!(pane_id, "6");
                }
                _ => panic!("expected a leaf"),
            }
        }
        _ => panic!("expected a container"),
    }
}

#[test]
fn gcd_values() {
    assert_eq!(gcd(12, 18), 6);
    assert_eq!(gcd(18, 12), 6);
    assert_eq!(gcd(7, 0), 7);
    assert_eq!(gcd(0, 7), 7);
    assert_eq!(gcd(0, 0), 0);
}

#[test]
fn gcd_vec_values() {
    assert_eq!(gcd_vec(&vec![6, 6, 12]), 6);
    assert_eq!(gcd_vec(&vec![30, 60]), 30);
    assert_eq!(gcd_vec(&Vec::new()), 1);
    assert_eq!(gcd_vec(&vec![0, 0]), 1);
}

#[test]
fn round_to_multiples_of_three() {
    assert_eq!(round(30), 30);
    assert_eq!(round(59), 60);
    assert_eq!(round(80), 81);
    assert_eq!(round(79), 81);
    assert_eq!(round(0), 0);
}

#[test]
fn weights_round_trip() {
    // emit a 1:2 split, parse it back, and reduce it to the same weights
    let panes = vec![
        parent(1, FlexDirection::Row, vec![leaf(1, None), leaf(2, None)]),
        leaf(1, None),
    ];
    let node =
        build_window_layout(&panes, FlexDirection::Column, 160, 90, &ids(&["%1", "%2", "%3", "%4"]))
            .unwrap();
    let full = layout_with_checksum(&render(&node));
    let parsed = parse_layout(&full).unwrap();
    let children = match parsed {
        LayoutNode::Split { children, .. } => children,
        _ => panic!("expected a container"),
    };
    let reduced = Pane::from_tokens(&children, FlexDirection::Column).unwrap();
    assert_eq!(reduced.len(), 2);
    assert_eq!(reduced[0].flex, 1);
    assert_eq!(reduced[1].flex, 1);
    let sub = reduced[0].panes.as_ref().unwrap();
    assert_eq!(sub.len(), 2);
    assert_eq!(sub[0].flex, 1);
    assert_eq!(sub[1].flex, 2);
    // re-emitting the reduced tree reproduces the body and checksum exactly
    let again = build_window_layout(
        &reduced,
        FlexDirection::Column,
        160,
        90,
        &ids(&["%1", "%2", "%3", "%4"]),
    )
    .unwrap();
    assert_eq!(layout_with_checksum(&render(&again)), full);
}

#[test]
fn reducer_ignores_commands_and_styles() {
    let node = parse_layout("160x90,0,0{80x90,0,0,0,79x90,81,0,1}").unwrap();
    let children = match node {
        LayoutNode::Split { children, .. } => children,
        _ => panic!("expected a container"),
    };
    let reduced = Pane::from_tokens(&children, FlexDirection::Column).unwrap();
    for p in &reduced {
        assert!(p.commands.is_empty());
        assert!(p.style.is_none());
        assert_eq!(p.path.as_deref(), Some("."));
    }
}
