//! The decisions the command line makes before it does any work.

use vstd::prelude::*;

use crate::text::{concat3, str_eq};

verus! {

/// The languages bindings can be generated for.
#[derive(Debug, Clone, Copy, PartialEq, Eq, Structural)]
pub enum Language {
    TypeScript,
}

/// Whether `lang` names TypeScript: `ts` or `typescript`.
pub open spec fn names_typescript(lang: Seq<char>) -> bool {
    lang == "ts"@ || lang == "typescript"@
}

/// The refusal of a language that has no generator.
pub open spec fn unsupported_language(lang: Seq<char>) -> Seq<char> {
    "unsupported language: "@ + lang + " (supported: ts)"@
}

/// The language `generate --lang` asks for, or the message that refuses it.
pub fn language(lang: &str) -> (r: Result<Language, String>)
    ensures
        names_typescript(lang@) ==> r == Ok::<Language, String>(Language::TypeScript),
        !names_typescript(lang@) ==> (r matches Err(e) && e@ == unsupported_language(lang@)),
{
    if str_eq(lang, "ts") || str_eq(lang, "typescript") {
        Ok(Language::TypeScript)
    } else {
        Err(concat3("unsupported language: ", lang, " (supported: ts)"))
    }
}

} // verus!
