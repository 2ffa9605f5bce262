use forth::dictionary::{Dictionary, DictionaryExt, Entry};
use forth::interpreter::Interpreter;
use forth::builtins::{insert_builtins, DUP, STAR};
use forth::primitive::{BinaryOp, DivOp, OutputOp, Primitive, ScaleOp, StackOp, UnaryOp};
use forth::types::ForthCell;
use forth::word::ForthWord;

#[test]
fn a_new_dictionary_is_empty() {
    let d = Dictionary::new();
    assert_eq!(d.len(), 0);
    assert_eq!(d.get("dup"), None);
}

#[test]
fn entry_new_keeps_name_and_code() {
    let e = Entry::new("plus", ForthWord::Native(Primitive::Binary(BinaryOp::Add)));
    assert_eq!(e.name, "plus");
    assert_eq!(e.code, ForthWord::Native(Primitive::Binary(BinaryOp::Add)));
}

#[test]
fn entry_from_statement_is_a_compiled_word() {
    let e = Entry::from_statement("two", vec![ForthCell::Number(2)]);
    assert_eq!(e.name, "two");
    assert_eq!(e.code, ForthWord::Forth(vec![ForthCell::Number(2)]));
}

#[test]
fn entries_are_equal_by_name() {
    let a = Entry::new("x", ForthWord::Native(Primitive::Bye));
    let b = Entry::from_statement("x", vec![ForthCell::Number(1)]);
    let c = Entry::new("y", ForthWord::Native(Primitive::Bye));
    assert!(a == b);
    assert!(a != c);
}

#[test]
fn insert_entry_appends() {
    let mut d = Dictionary::new();
    d.insert_entry(Entry::new("a", ForthWord::Native(Primitive::Bye)));
    d.insert_entry(Entry::from_statement("b", vec![ForthCell::Word(0)]));
    assert_eq!(d.len(), 2);
    assert_eq!(d.get("a"), Some(0));
    assert_eq!(d.get("b"), Some(1));
    assert_eq!(d.get("c"), None);
    assert_eq!(d.entry(1).name, "b");
    assert_eq!(d.native(0), Some(Primitive::Bye));
    assert_eq!(d.native(1), None);
    assert_eq!(d.body(1), &vec![ForthCell::Word(0)]);
}

#[test]
fn the_newest_entry_of_a_name_wins() {
    let mut d = Dictionary::new();
    d.insert_entry(Entry::from_statement("a", vec![ForthCell::Number(1)]));
    d.insert_entry(Entry::from_statement("b", vec![ForthCell::Number(2)]));
    d.insert_entry(Entry::from_statement("a", vec![ForthCell::Number(3)]));
    assert_eq!(d.len(), 3);
    assert_eq!(d.get("a"), Some(2));
    assert_eq!(d.get("b"), Some(1));
    assert_eq!(d.entry(0).code, ForthWord::Forth(vec![ForthCell::Number(1)]));
    assert_eq!(d.entry(2).code, ForthWord::Forth(vec![ForthCell::Number(3)]));
}

#[test]
fn names_are_compared_exactly() {
    let mut d = Dictionary::new();
    d.insert_entry(Entry::new("dup", ForthWord::Native(Primitive::Shuffle(StackOp::Dup))));
    assert_eq!(d.get("DUP"), None);
    assert_eq!(d.get("du"), None);
    assert_eq!(d.get("dup "), None);
    assert_eq!(d.get(""), None);
    assert_eq!(d.get("dup"), Some(0));
}

fn native(d: &Dictionary, name: &str) -> Option<Primitive> {
    d.get(name).and_then(|h| d.native(h))
}

#[test]
fn every_builtin_name_has_its_word() {
    let interp = Interpreter::new();
    let d = &interp.dictionary;
    let table = [
        ("bye", Primitive::Bye),
        ("/", Primitive::Divide(DivOp::Div)),
        ("*", Primitive::Binary(BinaryOp::Mul)),
        ("+", Primitive::Binary(BinaryOp::Add)),
        ("-", Primitive::Binary(BinaryOp::Sub)),
        ("mod", Primitive::Divide(DivOp::Mod)),
        ("and", Primitive::Binary(BinaryOp::And)),
        ("or", Primitive::Binary(BinaryOp::Or)),
        ("xor", Primitive::Binary(BinaryOp::Xor)),
        ("rshift", Primitive::Binary(BinaryOp::Rshift)),
        ("lshift", Primitive::Binary(BinaryOp::Lshift)),
        ("max", Primitive::Binary(BinaryOp::Max)),
        ("min", Primitive::Binary(BinaryOp::Min)),
        ("negate", Primitive::Unary(UnaryOp::Negate)),
        ("not", Primitive::Unary(UnaryOp::Not)),
        ("abs", Primitive::Unary(UnaryOp::Abs)),
        ("<", Primitive::Binary(BinaryOp::Less)),
        (">", Primitive::Binary(BinaryOp::Greater)),
        ("=", Primitive::Binary(BinaryOp::Equal)),
        ("0<", Primitive::Unary(UnaryOp::ZeroLess)),
        ("0>", Primitive::Unary(UnaryOp::ZeroGreater)),
        ("0=", Primitive::Unary(UnaryOp::ZeroEqual)),
        ("1+", Primitive::Unary(UnaryOp::OnePlus)),
        ("1-", Primitive::Unary(UnaryOp::OneMinus)),
        ("2+", Primitive::Unary(UnaryOp::TwoPlus)),
        ("2-", Primitive::Unary(UnaryOp::TwoMinus)),
        ("2/", Primitive::Unary(UnaryOp::TwoSlash)),
        ("2*", Primitive::Unary(UnaryOp::TwoStar)),
        ("*/", Primitive::Scale(ScaleOp::StarSlash)),
        ("*/mod", Primitive::Scale(ScaleOp::StarSlashMod)),
        ("drop", Primitive::Shuffle(StackOp::Drop)),
        ("dup", Primitive::Shuffle(StackOp::Dup)),
        ("?dup", Primitive::Shuffle(StackOp::QuestionDup)),
        ("over", Primitive::Shuffle(StackOp::Over)),
        ("swap", Primitive::Shuffle(StackOp::Swap)),
        ("rot", Primitive::Shuffle(StackOp::Rot)),
        ("branch", Primitive::Branch),
        ("?branch", Primitive::QuestionBranch),
        ("emit", Primitive::Output(OutputOp::Emit)),
        ("dump", Primitive::Output(OutputOp::Dump)),
        ("cr", Primitive::Output(OutputOp::Cr)),
        (".", Primitive::Output(OutputOp::Dot)),
        (":", Primitive::Colon),
        (";", Primitive::Semicolon),
        ("$", Primitive::Recall),
    ];
    assert_eq!(d.len(), table.len() + 1);
    for (i, (name, p)) in table.iter().enumerate() {
        assert_eq!(d.get(name), Some(i));
        assert_eq!(native(d, name), Some(*p));
    }
}

#[test]
fn square_is_compiled_from_dup_and_star() {
    let interp = Interpreter::new();
    let d = &interp.dictionary;
    let square = d.get("square").unwrap();
    assert_eq!(square, 45);
    assert_eq!(d.get("dup"), Some(DUP));
    assert_eq!(d.get("*"), Some(STAR));
    assert_eq!(d.body(square), &vec![ForthCell::Word(DUP), ForthCell::Word(STAR)]);
}

#[test]
fn builtins_added_to_a_dictionary_that_holds_entries() {
    let mut d = Dictionary::new();
    d.insert_entry(Entry::from_statement("dup", vec![ForthCell::Number(1)]));
    d.insert_entry(Entry::from_statement("mine", vec![ForthCell::Word(0)]));
    insert_builtins(&mut d);
    assert_eq!(d.len(), 48);
    assert_eq!(d.get("mine"), Some(1));
    assert_eq!(d.get("dup"), Some(2 + DUP));
    assert_eq!(d.body(47), &vec![ForthCell::Word(2 + DUP), ForthCell::Word(2 + STAR)]);
    assert_eq!(d.body(1), &vec![ForthCell::Word(0)]);
}

#[test]
fn lookup_gives_the_newest_entry_of_a_name() {
    let mut d = Dictionary::new();
    assert!(d.lookup("a").is_none());
    d.insert_entry(Entry::from_statement("a", vec![ForthCell::Number(1)]));
    d.insert_entry(Entry::from_statement("a", vec![ForthCell::Number(2)]));
    let found = d.lookup("a").unwrap();
    assert_eq!(found.name, "a");
    assert_eq!(found.code, ForthWord::Forth(vec![ForthCell::Number(2)]));
    assert!(d.lookup("b").is_none());
}
