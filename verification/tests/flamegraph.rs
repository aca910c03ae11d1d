use contract_profiler::profiler::{
    generate_flame_graph, layout, render, CallRecorder, CallTree, Duration, FlameRect,
    ProfileData,
};

fn recorded() -> (ProfileData, CallTree) {
    let mut r = CallRecorder::new();
    r.enter("main", 0).unwrap();
    r.enter("a<b>", 100).unwrap();
    r.exit(400).unwrap();
    r.enter("c", 500).unwrap();
    r.enter("d", 600).unwrap();
    r.exit(700).unwrap();
    r.exit(900).unwrap();
    r.exit(1000).unwrap();
    let profile = r.finish(String::from("t.wasm"), Some(String::from("run")), 1200).unwrap();
    (profile, r.call_tree().unwrap())
}

#[test]
fn call_tree_keeps_every_call_with_its_caller() {
    let (_, tree) = recorded();
    assert_eq!(tree.span(), 1200);
    let nodes = tree.nodes();
    assert_eq!(nodes.len(), 4);
    let shape: Vec<(&str, usize, Option<usize>, u64, u64)> = nodes
        .iter()
        .map(|n| (n.name.as_str(), n.depth, n.parent, n.start, n.duration))
        .collect();
    assert_eq!(
        shape,
        vec![
            ("main", 0, None, 0, 1000),
            ("a<b>", 1, Some(0), 100, 300),
            ("c", 1, Some(0), 500, 400),
            ("d", 2, Some(2), 600, 100),
        ]
    );
}

#[test]
fn layout_is_proportional_to_time() {
    let (_, tree) = recorded();
    let rects = layout(&tree, 1200);
    let boxes: Vec<(&str, usize, u64, u64, u64)> = rects
        .iter()
        .map(|r| (r.name.as_str(), r.depth, r.x, r.width, r.duration.nanos))
        .collect();
    assert_eq!(
        boxes,
        vec![
            ("main", 0, 0, 1000, 1000),
            ("a<b>", 1, 100, 300, 300),
            ("c", 1, 500, 400, 400),
            ("d", 2, 600, 100, 100),
        ]
    );
    let narrow = layout(&tree, 100);
    let edges: Vec<(u64, u64)> = narrow.iter().map(|r| (r.x, r.width)).collect();
    assert_eq!(edges, vec![(0, 83), (8, 25), (41, 34), (50, 8)]);
}

#[test]
fn layout_nests_children_inside_parents() {
    let (_, tree) = recorded();
    for canvas in [1u32, 7, 100, 1200, 4_000_000_000] {
        let rects = layout(&tree, canvas);
        for (i, node) in tree.nodes().iter().enumerate() {
            assert!(rects[i].x + rects[i].width <= canvas as u64);
            if let Some(p) = node.parent {
                assert_eq!(rects[i].depth, rects[p].depth + 1);
                assert!(rects[p].x <= rects[i].x);
                assert!(rects[i].x + rects[i].width <= rects[p].x + rects[p].width);
            }
        }
    }
}

#[test]
fn run_of_no_length_is_laid_out_without_fault() {
    let mut r = CallRecorder::new();
    r.enter("f", 0).unwrap();
    r.exit(0).unwrap();
    r.finish(String::from("c"), None, 0).unwrap();
    let tree = r.call_tree().unwrap();
    assert_eq!(tree.span(), 0);
    let rects = layout(&tree, 1200);
    assert_eq!(rects.len(), 1);
    assert_eq!((rects[0].x, rects[0].width), (0, 0));
}

#[test]
fn run_without_calls_gives_an_empty_drawing() {
    let mut r = CallRecorder::new();
    let profile = r.finish(String::from("empty.wasm"), None, 50).unwrap();
    let tree = r.call_tree().unwrap();
    assert!(tree.nodes().is_empty());
    let text = generate_flame_graph(&profile, &tree);
    assert_eq!(
        text,
        "<svg xmlns=\"http://www.w3.org/2000/svg\" width=\"1200\" height=\"0\">\n\
         <title>empty.wasm</title>\n</svg>\n"
    );
}

#[test]
fn flame_graph_is_an_svg_document() {
    let (profile, tree) = recorded();
    let text = generate_flame_graph(&profile, &tree);
    let expected = "<svg xmlns=\"http://www.w3.org/2000/svg\" width=\"1200\" height=\"48\">\n\
<title>t.wasm::run</title>\n\
<rect x=\"0\" y=\"0\" width=\"1000\" height=\"16\" fill=\"#d9602b\"><title>main (1000 ns)</title></rect>\n\
<rect x=\"100\" y=\"16\" width=\"300\" height=\"16\" fill=\"#d9602b\"><title>a&lt;b&gt; (300 ns)</title></rect>\n\
<rect x=\"500\" y=\"16\" width=\"400\" height=\"16\" fill=\"#d9602b\"><title>c (400 ns)</title></rect>\n\
<rect x=\"600\" y=\"32\" width=\"100\" height=\"16\" fill=\"#d9602b\"><title>d (100 ns)</title></rect>\n\
</svg>\n";
    assert_eq!(text, expected);
    assert_eq!(generate_flame_graph(&profile, &tree), text);
}

#[test]
fn render_escapes_title_and_names() {
    let rects = vec![FlameRect {
        name: String::from("a&b \"q\" 'r'"),
        depth: 3,
        x: 5,
        width: 7,
        duration: Duration { nanos: 9 },
    }];
    let text = render("x<y", &rects, 10);
    assert_eq!(
        text,
        "<svg xmlns=\"http://www.w3.org/2000/svg\" width=\"10\" height=\"64\">\n\
<title>x&lt;y</title>\n\
<rect x=\"5\" y=\"48\" width=\"7\" height=\"16\" fill=\"#d9602b\"><title>a&amp;b &quot;q&quot; &apos;r&apos; (9 ns)</title></rect>\n\
</svg>\n"
    );
}
