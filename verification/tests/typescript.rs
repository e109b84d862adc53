use sb_dice::mapping::PlaceholderMapping;
use sb_dice::replacer::StringReplacer;
use sb_dice::tree::StrLit;
use swc_core::common::{sync::Lrc, FileName, SourceMap};
use swc_core::ecma::ast::{EsVersion, Module, Str};
use swc_core::ecma::codegen::{text_writer::JsWriter, Config, Emitter};
use swc_core::ecma::parser::{lexer::Lexer, Parser, StringInput, Syntax};
use swc_core::ecma::visit::{VisitMut, VisitMutWith};

struct LiteralWalker {
    replacer: StringReplacer,
}

impl VisitMut for LiteralWalker {
    fn visit_mut_str(&mut self, n: &mut Str) {
        let mut literal = StrLit {
            value: n.value.as_str().map(|text| text.to_string()),
            raw: n.raw.as_ref().map(|raw| raw.to_string()),
        };
        self.replacer.visit_mut_str(&mut literal);
        n.value = literal.value.unwrap_or_default().into();
        n.raw = literal.raw.map(|raw| raw.into());
    }
}

fn parse(cm: &Lrc<SourceMap>, source: &str) -> Module {
    let file = cm.new_source_file(FileName::Anon.into(), source.to_string());
    let lexer = Lexer::new(
        Syntax::Typescript(Default::default()),
        EsVersion::Es2020,
        StringInput::from(&*file),
        None,
    );
    let mut parser = Parser::new_from(lexer);
    match parser.parse_module() {
        Ok(module) => module,
        Err(_) => panic!("the source does not parse"),
    }
}

fn render(cm: &Lrc<SourceMap>, module: &Module) -> String {
    let mut buf = vec![];
    {
        let writer = JsWriter::new(cm.clone(), "\n", &mut buf, None);
        let mut emitter = Emitter { cfg: Config::default(), cm: cm.clone(), comments: None, wr: writer };
        emitter.emit_module(module).unwrap();
    }
    String::from_utf8(buf).unwrap()
}

/// The rewritten source, rendered twice, and the record.
fn rewrite(source: &str) -> (String, String, Vec<String>) {
    let cm: Lrc<SourceMap> = Default::default();
    let mut module = parse(&cm, source);
    let mut walker = LiteralWalker { replacer: StringReplacer::new() };
    module.visit_mut_with(&mut walker);
    let first = render(&cm, &module);
    let second = render(&cm, &module);
    (first, second, walker.replacer.into_originals())
}

#[test]
fn typescript_literals_and_an_import() {
    let (text, again, record) = rewrite("\"hello\";\n'world';\nimport x from \"module-x\";\n");
    assert_eq!(text, "\"0\";\n\"1\";\nimport x from \"2\";\n");
    assert_eq!(again, text);
    assert_eq!(record, vec!["hello", "world", "module-x"]);
    let mapping = PlaceholderMapping::build(&record);
    assert_eq!(
        mapping.to_json().unwrap(),
        "{\n  \"0\": \"hello\",\n  \"1\": \"world\",\n  \"2\": \"module-x\"\n}"
    );
}

#[test]
fn typescript_template_statics_stay() {
    let source = "const who = 1;\nconst t = `Hello, ${who}! \"quoted\" text`;\n";
    let (text, again, record) = rewrite(source);
    assert_eq!(text, source);
    assert_eq!(again, text);
    assert!(record.is_empty());
}

#[test]
fn typescript_without_literals_is_left_as_it_is() {
    let source = "const n = 1 + 2;\nfunction f(a: number) {\n    return a * n;\n}\n";
    let (text, again, record) = rewrite(source);
    assert_eq!(text, source);
    assert_eq!(again, text);
    assert!(record.is_empty());
    assert_eq!(PlaceholderMapping::build(&record).to_json().unwrap(), "{}");
}

#[test]
fn typescript_literals_in_many_places() {
    let source = "// a comment with \"text\"\nimport { a } from './dep';\nconst fs = require(\"fs\");\nconst o: { [k: string]: string } = { \"key\": 'value', plain: `t ${f(\"inner\")} u` };\ntype T = \"lit\" | 'other';\nfunction g(x: string = \"d\") { return [x, 'e\\n']; }\nexport * from \"./all\";\n";
    let (text, again, record) = rewrite(source);
    let expected = "import { a } from \"0\";\nconst fs = require(\"1\");\nconst o: {\n    [k: string]: string;\n} = {\n    \"2\": \"3\",\n    plain: `t ${f(\"4\")} u`\n};\ntype T = \"5\" | \"6\";\nfunction g(x: string = \"7\") {\n    return [\n        x,\n        \"8\"\n    ];\n}\nexport * from \"9\";\n";
    assert_eq!(text, expected);
    assert_eq!(again, text);
    assert_eq!(record, vec!["./dep", "fs", "key", "value", "inner", "lit", "other", "d", "e\n", "./all"]);
}
