//! The full rewrite on real source text: parse, collect, decide, rename,
//! render.  The two syntax-tree passes are driven here exactly as the
//! command-line program drives them.

use syn::fold::Fold;
use syn::visit::Visit;
use syr::analysis::SinglesAnalysis;
use syr::counter::BlockVarCounter;
use syr::driver::{parse_source, StageError};

struct Collector {
    counter: BlockVarCounter,
}

impl<'ast> Visit<'ast> for Collector {
    fn visit_local(&mut self, local: &'ast syn::Local) {
        if let syn::Pat::Ident(p) = &local.pat {
            self.counter.record_decl(&p.ident.to_string());
        }
        syn::visit::visit_local(self, local);
    }

    fn visit_block(&mut self, b: &'ast syn::Block) {
        self.counter.push_block();
        syn::visit::visit_block(self, b);
        self.counter.pop_block();
    }

    fn visit_expr_path(&mut self, expr: &'ast syn::ExprPath) {
        if let Some(ident) = expr.path.get_ident() {
            self.counter.record_use(&ident.to_string());
        }
        syn::visit::visit_expr_path(self, expr);
    }
}

struct Renamer {
    analysis: SinglesAnalysis,
}

impl Fold for Renamer {
    fn fold_local(&mut self, mut local: syn::Local) -> syn::Local {
        if let syn::Pat::Ident(p) = &mut local.pat {
            let renamed = self.analysis.rename_spelling(&p.ident.to_string());
            p.ident = syn::Ident::new(&renamed, p.ident.span());
        }
        syn::fold::fold_local(self, local)
    }

    fn fold_expr_path(&mut self, mut expr: syn::ExprPath) -> syn::ExprPath {
        if expr.path.get_ident().is_some() {
            let seg = expr.path.segments.first_mut().unwrap();
            let renamed = self.analysis.rename_spelling(&seg.ident.to_string());
            seg.ident = syn::Ident::new(&renamed, seg.ident.span());
        }
        syn::fold::fold_expr_path(self, expr)
    }
}

fn rewrite_text(src: &str) -> Result<String, StageError> {
    let ast = parse_source(&src.to_string())?;
    let mut collector = Collector {
        counter: BlockVarCounter::new(),
    };
    collector.visit_file(&ast);
    let analysis = collector.counter.analyze();
    let mut renamer = Renamer { analysis };
    let new_ast = renamer.fold_file(ast);
    Ok(prettyplease::unparse(&new_ast))
}

#[test]
fn unused_binding_is_marked_in_place() {
    let out = rewrite_text("fn main() { let x = 5; }").unwrap();
    assert_eq!(out, "fn main() {\n    let _x = 5;\n}\n");
}

#[test]
fn referenced_marked_binding_is_unmarked_everywhere() {
    let out = rewrite_text("fn main() { let _z = 1; let y = _z; }").unwrap();
    assert!(out.contains("let z = 1;"));
    assert!(out.contains("= z;"));
    assert!(!out.contains("_z"));
}

#[test]
fn family_is_unified_across_blocks() {
    let src = "fn main() { { let _y = 1; } { let y = 2; let r = y; } }";
    let out = rewrite_text(src).unwrap();
    assert!(out.contains("let y = 1;"));
    assert!(out.contains("let y = 2;"));
    assert!(out.contains("= y;"));
    assert!(!out.contains("_y"));
}

#[test]
fn destructuring_patterns_are_not_tracked() {
    let src = "fn main() { let (a, b) = (1, 2); let c = a; }";
    let out = rewrite_text(src).unwrap();
    assert!(out.contains("let (a, b) = (1, 2);"));
    assert!(out.contains("let _c = a;"));
}

#[test]
fn rewriting_twice_changes_nothing_more() {
    let src = "fn main() {\n    let _a = 1;\n    let b = _a;\n    let dead = 3;\n}\n";
    let once = rewrite_text(src).unwrap();
    let twice = rewrite_text(&once).unwrap();
    assert_eq!(twice, once);
}

#[test]
fn canonical_rendering_reformats_valid_text() {
    let out = rewrite_text("fn  answer( )->u32{ 42 }").unwrap();
    assert_eq!(out, "fn answer() -> u32 {\n    42\n}\n");
}

#[test]
fn invalid_syntax_is_a_parse_failure() {
    match rewrite_text("fn {") {
        Ok(_) => panic!("invalid text must not parse"),
        Err(e) => {
            match &e {
                StageError::Parse(_) => {}
                _ => panic!("failure must be a parse failure"),
            }
            assert!(!e.message().is_empty());
        }
    }
}

#[test]
fn usage_diagnostic_names_the_expected_invocation() {
    assert_eq!(StageError::Usage.message(), "usage: syr <file.rs>");
}

#[test]
fn io_diagnostics_carry_their_description() {
    let read = StageError::ReadIo("no such file".to_string());
    assert_eq!(read.message(), "no such file");
    let write = StageError::WriteIo("permission denied".to_string());
    assert_eq!(write.message(), "permission denied");
}
