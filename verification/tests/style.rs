use orm::style::{bold, cyan, failure, step, success, warn};

#[test]
fn marks_are_coloured_only_when_colour_is_on() {
    colored::control::set_override(true);
    assert_eq!(success("done"), "\u{1b}[1;32m\u{2713}\u{1b}[0m done");
    assert_eq!(step("next"), "\u{1b}[1;36m\u{2192}\u{1b}[0m next");
    assert_eq!(warn("careful"), "\u{1b}[1;33m!\u{1b}[0m careful");
    assert_eq!(failure("broken"), "\u{1b}[1;31m\u{2717}\u{1b}[0m broken");
    assert_eq!(bold("stem"), "\u{1b}[1mstem\u{1b}[0m");
    assert_eq!(cyan("question"), "\u{1b}[36mquestion\u{1b}[0m");

    colored::control::set_override(false);
    assert_eq!(success("done"), "\u{2713} done");
    assert_eq!(failure("broken"), "\u{2717} broken");
    assert_eq!(bold("stem"), "stem");
    colored::control::unset_override();
}
