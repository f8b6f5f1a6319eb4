use ssr_bench::render::{
    append_row_label, digest_of, render_markup, ReferenceAdapter, RenderAdapter,
};
use ssr_bench::workload::{generate_sequential_rows, Row, Tile, Workload};

#[test]
fn row_label_names_value_and_index() {
    let mut out = String::new();
    append_row_label(&mut out, &Row { index: 49, value: 1 });
    assert_eq!(out, "SSR 1-49");
    let mut out = String::from("> ");
    append_row_label(&mut out, &Row { index: 0, value: 4_294_967_295 });
    assert_eq!(out, "> SSR 4294967295-0");
}

#[test]
fn rows_are_rendered_in_order() {
    let rows = vec![
        Row { index: 0, value: 1 },
        Row { index: 1, value: 1 },
        Row { index: 2, value: 7 },
    ];
    assert_eq!(
        render_markup(&Workload::Rows(rows)),
        "<main><div>SSR 1-0</div><div>SSR 1-1</div><div>SSR 7-2</div></main>"
    );
}

#[test]
fn tiles_are_rendered_in_order() {
    let tiles = vec![
        Tile { id: 0, x: 480_000_000, y: 360_000_000 },
        Tile { id: 1, x: 480_147_010, y: 360_029_800 },
    ];
    assert_eq!(
        render_markup(&Workload::Tiles(tiles)),
        "<div id=\"wrapper\">\
         <div class=\"tile\" style=\"left: 480.000000px; top: 360.000000px;\"></div>\
         <div class=\"tile\" style=\"left: 480.147010px; top: 360.029800px;\"></div>\
         </div>"
    );
}

#[test]
fn empty_workloads_render_their_container() {
    assert_eq!(render_markup(&Workload::Rows(Vec::new())), "<main></main>");
    assert_eq!(render_markup(&Workload::Tiles(Vec::new())), "<div id=\"wrapper\"></div>");
}

#[test]
fn items_are_neither_dropped_nor_merged() {
    let rows = vec![Row { index: 0, value: 1 }, Row { index: 0, value: 1 }];
    assert_eq!(
        render_markup(&Workload::Rows(rows)),
        "<main><div>SSR 1-0</div><div>SSR 1-0</div></main>"
    );
}

#[test]
fn list_baseline_renders_fifty_rows() {
    let rows = generate_sequential_rows(50, 1).unwrap();
    let markup = render_markup(&Workload::Rows(rows));
    assert_eq!(markup.matches("<div>").count(), 50);
    assert!(markup.starts_with("<main><div>SSR 1-0</div><div>SSR 1-1</div>"));
    assert!(markup.ends_with("<div>SSR 1-48</div><div>SSR 1-49</div></main>"));
    assert_eq!(markup.len(), 13 + 40 * 19 + 10 * 18);
}

#[test]
fn digest_of_known_inputs() {
    assert_eq!(digest_of(b""), 0xcbf2_9ce4_8422_2325);
    assert_eq!(digest_of(b"a"), 0xaf63_dc4c_8601_ec8c);
    assert_eq!(digest_of(b"foobar"), 0x8594_4171_f739_67e8);
}

#[test]
fn digest_tells_outputs_of_one_length_apart() {
    assert_ne!(digest_of(b"<main>1</main>"), digest_of(b"<main>2</main>"));
    assert_eq!(digest_of(b"<main>1</main>"), digest_of(b"<main>1</main>"));
}

#[test]
fn reference_adapter_writes_the_reference_markup() {
    let mut adapter = ReferenceAdapter::new();
    assert_eq!(adapter.name(), "reference");
    let workload = Workload::Rows(vec![Row { index: 0, value: 1 }]);
    let first = adapter.render(&workload).unwrap();
    let second = adapter.render(&workload).unwrap();
    assert_eq!(first.markup, "<main><div>SSR 1-0</div></main>");
    assert_eq!(first.markup, render_markup(&workload));
    assert_eq!(first.markup, second.markup);
}

#[test]
fn markup_of_joined_rows_is_the_joined_markup() {
    let front = vec![Row { index: 0, value: 1 }, Row { index: 1, value: 2 }];
    let back = vec![Row { index: 2, value: 3 }];
    let mut joined = front.clone();
    joined.extend(back.iter().copied());
    let inner = |rows: Vec<Row>| {
        let markup = render_markup(&Workload::Rows(rows));
        markup["<main>".len()..markup.len() - "</main>".len()].to_string()
    };
    assert_eq!(inner(joined), inner(front) + &inner(back));
}
