use obsidian_zola::postprocessors::{
    convert_to_zola_image_with_context, convert_to_zola_link_with_context, resolve_relative_path,
    Context,
};
use obsidian_zola::utils::{is_markdown_file, normalize_path};
use std::path::{Component, Path};

// The library reads paths as text, with `/` as the separator. Where the
// platform's paths are of that kind, what `std::path` makes of a path is the
// measure of it.

const PATHS: &[&str] = &[
    "", ".", "..", "/", "//", "///", "a", "a/", "a//", "/a", "//a", "a/b", "a//b", "a/./b", "./a",
    "./", ".//", "./.", "../a", "a/..", "a/../", "a/../..", "/..", "/../a", "/.", "/./", "/./a",
    "a/.", "a/b/.", "a/b/..", "..a", "a..", ".a", "a.", "...", "a/.../b", "a b/c", "é/ü", "a\\b",
    "a.md", "a.MD", "a.Md", "a.markdown", "A.MARKDOWN", "a.md/", "a.md/.", "a.md/..", ".md",
    "x/.md", "..md", "a.md.", "a.b.md", "a.mdx", "md", "a/b.md/c", "/vault", "/vault/",
    "/vault/a.md", "/vault/x/a.md", "/vault/x/y/a.md", "/vaultx/a.md", "vault/a.md",
    "./vault/a.md", "/vault/./a.md", "/vault//x//a.md", "/vault/../a.md", "/vault/x/../a.md",
    "static/a.png", "../static/a.png", "static", "static/", "x/static/a", "/static/a", "a#b",
    "a.md#b", "#", "#x", "a/#b.md", "a.\u{212A}", "a.mar\u{212A}down",
];

const ROOTS: &[&str] =
    &["", ".", "/", "/vault", "/vault/", "vault", "./vault", "/vault/x", "/vault/./x/", "a/.."];

fn walk(path: &Path) -> String {
    let mut segments: Vec<String> = Vec::new();
    for component in path.components() {
        match component {
            Component::CurDir => {}
            Component::ParentDir => {
                segments.pop();
            }
            other => segments.push(other.as_os_str().to_string_lossy().into_owned()),
        }
    }
    segments.join("/")
}

fn directory<'a>(file: &'a Path, root: &Path) -> &'a Path {
    file.strip_prefix(root).unwrap_or(file).parent().unwrap_or(Path::new(""))
}

#[test]
fn resolution_agrees_with_std_paths() {
    for dir in PATHS {
        for target in PATHS {
            assert_eq!(
                resolve_relative_path(dir, target),
                walk(&Path::new(dir).join(target)),
                "{:?} from {:?}",
                target,
                dir
            );
        }
    }
}

#[test]
fn normalizing_agrees_with_std_paths() {
    for path in PATHS {
        let components: Vec<String> = Path::new(path)
            .components()
            .map(|c| c.as_os_str().to_string_lossy().into_owned())
            .collect();
        assert_eq!(normalize_path(path), components.join("/"), "{:?}", path);
    }
}

#[test]
fn markdown_extension_agrees_with_std_paths() {
    for path in PATHS {
        let expected = match Path::new(path).extension() {
            Some(extension) => {
                let lowered = extension.to_string_lossy().to_lowercase();
                lowered == "md" || lowered == "markdown"
            }
            None => false,
        };
        assert_eq!(is_markdown_file(path), expected, "{:?}", path);
    }
}

#[test]
fn document_directory_agrees_with_std_paths() {
    for file in PATHS {
        for root in ROOTS {
            let context = Context::new(file.to_string());
            let dir = directory(Path::new(file), Path::new(root));
            assert_eq!(
                convert_to_zola_link_with_context("../x/./n.md#s", &context, root),
                format!("@/{}#s", walk(&dir.join("../x/./n.md"))),
                "{:?} under {:?}",
                file,
                root
            );
            let resolved = walk(&dir.join("p.png"));
            let served = match resolved.strip_prefix("static/") {
                Some(rest) => format!("/{}", rest),
                None => resolved,
            };
            assert_eq!(
                convert_to_zola_image_with_context("p.png", &context, root),
                served,
                "{:?} under {:?}",
                file,
                root
            );
        }
    }
}
