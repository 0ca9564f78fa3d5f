use fyrox_graphics_wgpu::text::{trim, trim_end, trim_start};
use fyrox_graphics_wgpu::vertex_depth::{
    find_word, is_ident, matching_paren, position_field, remap_vertex_depth, split_top_level,
    strip_attributes,
};

fn validate(source: &str) {
    let module = wgpu::naga::front::wgsl::parse_str(source)
        .unwrap_or_else(|e| panic!("{}\n{source}", e.emit_to_string(source)));
    wgpu::naga::valid::Validator::new(
        wgpu::naga::valid::ValidationFlags::all(),
        wgpu::naga::valid::Capabilities::all(),
    )
    .validate(&module)
    .unwrap_or_else(|e| panic!("{e:?}\n{source}"));
}

#[test]
fn wraps_a_struct_returning_entry_point() {
    let source = r#"
            struct VertexInput {
                @location(0) vertexPosition: vec3f,
                @location(1) vertexTexCoord: vec2f,
            };

            struct VertexOutput {
                @builtin(position) position: vec4f,
                @location(0) texCoord: vec2f,
            };

            @vertex
            fn vs_main(input: VertexInput) -> VertexOutput {
                var output: VertexOutput;
                output.texCoord = input.vertexTexCoord;
                output.position = vec4f(input.vertexPosition, 1.0);
                return output;
            }
        "#;
    let wrapped = remap_vertex_depth(source).unwrap();
    assert!(wrapped.contains("out.position.z = (out.position.z + out.position.w) * 0.5;"));
    validate(&wrapped);
}

#[test]
fn wraps_a_builtin_returning_entry_point_with_attributed_params() {
    let source = r#"
            @vertex fn vs_main(@location(0) vertexPosition: vec3f, @builtin(instance_index) i: u32) -> @builtin(position) vec4f {
                return vec4f(vertexPosition, f32(i));
            }
        "#;
    let wrapped = remap_vertex_depth(source).unwrap();
    assert!(wrapped.contains("fn fyrox_user_vs_main(vertexPosition: vec3f, i: u32) -> vec4f"));
    assert!(wrapped.contains("fyrox_user_vs_main(vertexPosition, i)"));
    validate(&wrapped);
}

#[test]
fn leaves_sources_without_an_entry_point_alone() {
    assert!(remap_vertex_depth("fn helper() -> f32 { return 1.0; }").is_none());
}

fn chars(text: &str) -> Vec<char> {
    text.chars().collect()
}

fn text(chars: &[char]) -> String {
    chars.iter().collect()
}

#[test]
fn the_wrapper_is_written_out() {
    let source = "let a = 1;\n@vertex\nfn vs_main(@location(0) p: vec3f) -> @builtin(position) vec4f {\n    return vec4f(p, 1.0);\n}\n// end";
    let expected = "let a = 1;\nfn fyrox_user_vs_main(p: vec3f) -> vec4f{\n    return vec4f(p, 1.0);\n}\n// end\n@vertex\nfn vs_main(@location(0) p: vec3f) -> @builtin(position) vec4f {\n    var out = fyrox_user_vs_main(p);\n    out.z = (out.z + out.w) * 0.5;\n    return out;\n}\n";
    assert_eq!(remap_vertex_depth(source).as_deref(), Some(expected));
}

#[test]
fn members_on_one_line_are_found() {
    let source = "struct Out { @builtin(position) position: vec4f }\n\
        @vertex fn vs_main() -> Out { var o: Out; o.position = vec4f(1.0); return o; }";
    let wrapped = remap_vertex_depth(source).unwrap();
    assert!(wrapped.contains("    out.position.z = (out.position.z + out.position.w) * 0.5;\n"));
    validate(&wrapped);
}

#[test]
fn later_members_are_found_by_their_attribute() {
    let source = "struct Out {\n    @location(0) @interpolate(flat) a: u32,\n    @invariant @builtin(position) clip: vec4f,\n}\n\
        @vertex fn vs_main(@builtin(vertex_index) i: u32,) -> Out {\n    return Out(i, vec4f(1.0));\n}";
    let wrapped = remap_vertex_depth(source).unwrap();
    assert!(wrapped.contains("out.clip.z = (out.clip.z + out.clip.w) * 0.5;"));
    assert!(wrapped.contains("fn fyrox_user_vs_main(i: u32) -> Out"));
    validate(&wrapped);
}

#[test]
fn entry_points_that_cannot_be_understood_are_left_alone() {
    let sources = [
        "",
        "@vertex",
        "fn vs_main() -> @builtin(position) vec4f {}",
        "@vertex fn vs_main2() -> @builtin(position) vec4f {}",
        "@vertex fn main() {} fn vs_main() -> @builtin(position) vec4f {}",
        "@vertex fn vs_main() {}",
        "@vertex fn vs_main() -> Missing {}",
        "struct Out { a: vec4f } @vertex fn vs_main() -> Out {}",
        "struct Out { @builtin(position) a: vec4f @vertex fn vs_main() -> Out {",
        "@vertex fn vs_main(a: f32 -> @builtin(position) vec4f {}",
        "@vertex fn vs_main() -> @builtin(position) vec4f",
        "@vertex fn vs_main(@location(0)) -> @builtin(position) vec4f {}",
        "@vertex fn vs_main",
    ];
    for source in sources {
        assert_eq!(remap_vertex_depth(source), None, "{source}");
    }
}

#[test]
fn longer_names_are_no_entry_points() {
    let source = "fn vs_main_helper() {} fn my_fn vs_main() {} \
        @vertex fn vs_main() -> @builtin(position) vec4f { return vec4f(0.0); }";
    let wrapped = remap_vertex_depth(source).unwrap();
    assert!(wrapped.starts_with("fn vs_main_helper() {} fn my_fn vs_main() {} fn fyrox_user_vs_main() -> vec4f{"));
    assert!(wrapped.ends_with("    return out;\n}\n"));
}

#[test]
fn sources_need_not_be_ascii() {
    let source = "// größe\n@vertex fn vs_main(größe: f32) -> @builtin(position) vec4f { return vec4f(größe); } // ∎";
    let wrapped = remap_vertex_depth(source).unwrap();
    assert!(wrapped.starts_with("// größe\nfn fyrox_user_vs_main(größe: f32) -> vec4f{ return"));
    assert!(wrapped.contains("// ∎\n@vertex\nfn vs_main(größe: f32) -> @builtin(position) vec4f {"));
    assert!(wrapped.contains("var out = fyrox_user_vs_main(größe);"));
}

#[test]
fn words_are_found_on_their_own() {
    let find = |source: &str, needle: &str| find_word(&chars(source), &chars(needle));
    assert_eq!(find("fn a fn", "fn"), Some(0));
    assert_eq!(find("fna _fn fn_ 1fn fn", "fn"), Some(16));
    assert_eq!(find("éfné", "fn"), Some(1));
    assert_eq!(find("fnfn", "fn"), None);
    assert_eq!(find("struct struct s", "struct s"), Some(7));
    assert!(is_ident('a') && is_ident('Z') && is_ident('5') && is_ident('_'));
    assert!(!is_ident('-') && !is_ident('é') && !is_ident('@') && !is_ident('`'));
}

#[test]
fn parentheses_match() {
    let find = |source: &str, open: usize| matching_paren(&chars(source), open);
    assert_eq!(find("a(b(c)d)e)", 1), Some(7));
    assert_eq!(find("a(b(c)d)e)", 3), Some(5));
    assert_eq!(find("((", 0), None);
    assert_eq!(find("", 0), None);
    assert_eq!(find("é(ü)", 1), Some(3));
}

#[test]
fn text_is_split_at_its_top_level() {
    let split = |source: &str| -> Vec<String> {
        split_top_level(&chars(source)).iter().map(|p| text(p)).collect()
    };
    assert_eq!(split("a, b<c, d>, e(f, g)"), vec!["a", " b<c, d>", " e(f, g)"]);
    assert_eq!(split(""), vec![""]);
    assert_eq!(split(",a,"), vec!["", "a", ""]);
    assert_eq!(split("a), b"), vec!["a)", " b"]);
    assert_eq!(split("a>b,c"), vec!["a>b", "c"]);
    assert_eq!(split("f(a > b, c), d"), vec!["f(a > b, c)", " d"]);
    assert_eq!(split("f(a < b, c), d"), vec!["f(a < b, c)", " d"]);
    assert_eq!(split("a<(b>c),d"), vec!["a<(b>c)", "d"]);
    assert_eq!(split("a<b),c"), vec!["a<b)", "c"]);
    assert_eq!(split("a<b,c"), vec!["a<b", "c"]);
    assert_eq!(split("a(b,c"), vec!["a(b", "c"]);
    assert_eq!(split("a<(b>c,d"), vec!["a<(b>c", "d"]);
    assert_eq!(split("a<b<c>,d"), vec!["a<b<c>", "d"]);
    assert_eq!(split("(a<b, c), (d>e, f)"), vec!["(a<b, c)", " (d>e, f)"]);
    assert_eq!(split("a<(b, c), d>, e"), vec!["a<(b, c), d>", " e"]);
    assert_eq!(split("a<b<c, d>, e>, f"), vec!["a<b<c, d>, e>", " f"]);
    assert_eq!(
        split("@location(select(0, 1, A > B)) x: f32, y: f32"),
        vec!["@location(select(0, 1, A > B)) x: f32", " y: f32"]
    );
    assert_eq!(split("x, y<z, w>").join(","), "x, y<z, w>");
}

#[test]
fn attributes_are_stripped() {
    let strip = |source: &str| text(strip_attributes(&chars(source)));
    assert_eq!(strip(" @location(0) a: f32 "), "a: f32");
    assert_eq!(strip("@a @b(c(d)) @e_1 f"), "f");
    assert_eq!(strip("@builtin (position) vec4f"), "vec4f");
    assert_eq!(strip("@open(a"), "@open(a");
    assert_eq!(strip("@a @open(b"), "@open(b");
    assert_eq!(strip("@größe x"), "x");
    assert_eq!(strip("@a-b"), "-b");
    assert_eq!(strip("@"), "");
    assert_eq!(strip(&strip("@a @b c")), "c");
}

#[test]
fn position_members_are_named() {
    let find = |source: &str, name: &str| {
        position_field(&chars(source), &chars(name)).map(|field| text(field))
    };
    let source = "struct A { @location(0) x: f32, @builtin(position) y : vec4f, } struct B { z: f32 }";
    assert_eq!(find(source, "A").as_deref(), Some("y"));
    assert_eq!(find(source, "B"), None);
    assert_eq!(find(source, "C"), None);
    assert_eq!(find("struct A", "A"), None);
    let source = "struct O { @align(max(16, 4)) @builtin(position) p: vec4f }";
    assert_eq!(find(source, "O").as_deref(), Some("p"));
    let source = "struct O { a: array<vec2f, 4>, @builtin(position) q: vec4f }";
    assert_eq!(find(source, "O").as_deref(), Some("q"));
    let source = "struct O { // 0 <= x < 1\n x: f32, @builtin(position) p: vec4f, }";
    assert_eq!(find(source, "O").as_deref(), Some("p"));
    let source = "struct O { x: f32, // (see below, or above\n @builtin(position) @invariant p: vec4f }";
    assert_eq!(find(source, "O").as_deref(), Some("p"));
}

#[test]
fn white_space_is_unicode() {
    for source in [" \t\n\r a b \u{85}\u{a0}\u{3000}", "", "  ", "a", "\u{200b}a\u{2028}"] {
        assert_eq!(text(trim(&chars(source))), source.trim());
        assert_eq!(text(trim_start(&chars(source))), source.trim_start());
        assert_eq!(text(trim_end(&chars(source))), source.trim_end());
    }
    for c in '\0'..='\u{ffff}' {
        let one = [c];
        assert_eq!(trim(&one).is_empty(), c.is_whitespace(), "{c:?}");
    }
}

#[test]
fn comparisons_in_attributes_hide_no_parameter() {
    for comparison in ["A > B", "A < B", "A >= B", "A <= B"] {
        let source = format!(
            "const A = 1; const B = 2;\n\
             @vertex fn vs_main(@location(select(0, 1, {comparison})) x: f32, @location(2) y: f32) \
             -> @builtin(position) vec4f {{ return vec4f(x, y, 0.0, 1.0); }}"
        );
        let wrapped = remap_vertex_depth(&source).unwrap();
        assert!(wrapped.contains("fn fyrox_user_vs_main(x: f32, y: f32) -> vec4f"));
        assert!(wrapped.contains("var out = fyrox_user_vs_main(x, y);"));
    }
}

#[test]
fn comments_with_ranges_hide_no_member() {
    let source = "struct O { // 0 <= x < 1\n @location(0) x: f32, @builtin(position) p: vec4f, }\n\
        @vertex fn vs_main(@builtin(vertex_index) i: u32 /* 0 <= i < 3 */, @location(0) x: f32) -> O {\n\
        return O(x, vec4f(f32(i)));\n}";
    let wrapped = remap_vertex_depth(source).unwrap();
    assert!(wrapped.contains("    out.p.z = (out.p.z + out.p.w) * 0.5;\n"));
    validate(&wrapped);
}
