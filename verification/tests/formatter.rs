use oa_forge::formatter;

#[test]
fn collapses_blank_lines() {
    let input = "a\n\n\nb\n";
    let result = formatter::format(input);
    assert_eq!(result, "a\n\nb\n");
}

#[test]
fn normalizes_tabs_to_spaces() {
    let input = "\tname: string;\n\t\tnested: boolean;\n";
    let result = formatter::format(input);
    assert_eq!(result, "  name: string;\n    nested: boolean;\n");
}

#[test]
fn sorts_imports() {
    let input = "// Header\n\nimport { z } from './z';\nimport type { B } from './b';\nimport type { A } from './a';\nimport { x } from './x';\n\nexport interface Foo {}\n";
    let result = formatter::format(input);
    assert!(result.contains("import type { A }"));
    // type imports should come before value imports
    let type_a_pos = result.find("import type { A }").unwrap();
    let import_x_pos = result.find("import { x }").unwrap();
    assert!(type_a_pos < import_x_pos, "type imports should come first");
}

#[test]
fn whitespace_only_lines_count_as_blank() {
    let result = formatter::format("a\n  \n\t\n\nb");
    assert_eq!(result, "a\n  \nb\n");
}

#[test]
fn import_block_is_sorted_in_place() {
    let mut lines: Vec<Vec<char>> = ["// h", "import { b } from 'b';", "", "import type { Z } from 'z';", "import { a } from 'a';", "const x = 1;"]
        .iter()
        .map(|l| l.chars().collect())
        .collect();
    formatter::sort_imports(&mut lines);
    let out: Vec<String> = lines.iter().map(|l| l.iter().collect()).collect();
    assert_eq!(
        out,
        vec![
            "// h",
            "import type { Z } from 'z';",
            "import { a } from 'a';",
            "import { b } from 'b';",
            "",
            "const x = 1;",
        ]
    );
}

#[test]
fn format_of_empty_text_is_empty() {
    assert_eq!(formatter::format(""), "");
    assert_eq!(formatter::format("x"), "x\n");
}

#[test]
fn formatting_twice_changes_nothing() {
    let inputs = [
        "// header\n\n\nimport { b } from './b';\nimport type { A } from './a';\n\n\nimport { a } from './a';\nconst x = 1;\n\n\n\tif (x) {\n\t\treturn;\n\t}\n",
        "no imports here\n\n\n\tindented\n",
        "import { z } from 'z';\r\n",
        "",
        "import type { T } from 't';\nimport { v } from 'v';",
    ];
    for input in inputs {
        let input = input.replace('\r', "");
        let once = formatter::format(&input);
        assert_eq!(formatter::format(&once), once);
    }
}

#[test]
fn a_hollow_first_import_block_is_not_stable() {
    let once = formatter::format("import \nx\nimport b\nimport a\n");
    assert_eq!(once, "\nx\nimport b\nimport a\n");
    assert_eq!(formatter::format(&once), "\nx\nimport a\nimport b\n");
}

#[test]
fn a_hollow_first_import_block_with_later_imports_in_order_is_stable() {
    let once = formatter::format("import \nx\nimport a\n");
    assert_eq!(once, "\nx\nimport a\n");
    assert_eq!(formatter::format(&once), once);
}
