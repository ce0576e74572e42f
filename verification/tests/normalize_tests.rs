use sync_lsp::normalize::convert_name;

#[test]
fn name_conversion() {
    assert_eq!(
        convert_name("impl MyTrait   for   MyType<R>"),
        "impl+MyTrait+for+MyType+R+"
    );
}

#[test]
fn name_conversion_idempotent() {
    let once = convert_name("impl MyTrait   for   MyType<R>");
    assert_eq!(convert_name(&once), once);
    let plain = convert_name("  main  ");
    assert_eq!(convert_name(&plain), plain);
}

#[test]
fn name_conversion_trims_whitespace() {
    assert_eq!(convert_name("  main  "), "main");
    assert_eq!(convert_name("\t fn main \n"), "fn+main");
}

#[test]
fn name_conversion_keeps_unicode_alphanumerics() {
    assert_eq!(convert_name("a é"), "a+é");
    assert_eq!(convert_name("数 x"), "数+x");
}

#[test]
fn name_conversion_keeps_allowed_punctuation() {
    assert_eq!(convert_name("a?b@c:d!e$f&g(h)i*j-k+l=m~n.o_p"), "a?b@c:d!e$f&g(h)i*j-k+l=m~n.o_p");
}

#[test]
fn name_conversion_collapses_replacements() {
    assert_eq!(convert_name("a<<<>>>b"), "a+b");
    assert_eq!(convert_name("<x>"), "+x+");
}
