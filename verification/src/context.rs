//! What the parser tells the lexer about the code around the next token, and
//! the words whose meaning depends on it.

use vstd::prelude::*;
use crate::text::text_is;
use crate::token::Keyword;

verus! {

/// Flags that the parser sets for the next token. The lexer reads them and
/// never changes them.
#[derive(Clone, Copy, Debug, PartialEq, Eq, Structural)]
pub struct Context {
    /// Strict mode: no legacy octal numbers or escapes, and more reserved
    /// words.
    pub strict: bool,
    /// Module code: no HTML-like comments, and `await` is reserved.
    pub module: bool,
    /// Whether `::` is a token.
    pub fn_bind: bool,
    /// Inside a generator, where `yield` is reserved.
    pub in_generator: bool,
    /// Inside an async function, where `await` is reserved.
    pub in_async: bool,
}

impl Default for Context {
    /// Sloppy script code outside any function.
    fn default() -> (r: Context)
        ensures
            r == (Context {
                strict: false,
                module: false,
                fn_bind: false,
                in_generator: false,
                in_async: false,
            }),
    {
        Context {
            strict: false,
            module: false,
            fn_bind: false,
            in_generator: false,
            in_async: false,
        }
    }
}

/// The keyword that is spelled `w`, if there is one.
pub open spec fn keyword_named(w: Seq<char>) -> Option<Keyword> {
    if w == "await"@ {
        Some(Keyword::Await)
    } else if w == "break"@ {
        Some(Keyword::Break)
    } else if w == "case"@ {
        Some(Keyword::Case)
    } else if w == "catch"@ {
        Some(Keyword::Catch)
    } else if w == "class"@ {
        Some(Keyword::Class)
    } else if w == "const"@ {
        Some(Keyword::Const)
    } else if w == "continue"@ {
        Some(Keyword::Continue)
    } else if w == "debugger"@ {
        Some(Keyword::Debugger)
    } else if w == "default"@ {
        Some(Keyword::Default_)
    } else if w == "delete"@ {
        Some(Keyword::Delete)
    } else if w == "do"@ {
        Some(Keyword::Do)
    } else if w == "else"@ {
        Some(Keyword::Else)
    } else if w == "export"@ {
        Some(Keyword::Export)
    } else if w == "extends"@ {
        Some(Keyword::Extends)
    } else if w == "finally"@ {
        Some(Keyword::Finally)
    } else if w == "for"@ {
        Some(Keyword::For)
    } else if w == "function"@ {
        Some(Keyword::Function)
    } else if w == "if"@ {
        Some(Keyword::If)
    } else if w == "import"@ {
        Some(Keyword::Import)
    } else if w == "let"@ {
        Some(Keyword::Let)
    } else if w == "new"@ {
        Some(Keyword::New)
    } else if w == "return"@ {
        Some(Keyword::Return)
    } else if w == "super"@ {
        Some(Keyword::Super)
    } else if w == "switch"@ {
        Some(Keyword::Switch)
    } else if w == "this"@ {
        Some(Keyword::This)
    } else if w == "throw"@ {
        Some(Keyword::Throw)
    } else if w == "try"@ {
        Some(Keyword::Try)
    } else if w == "typeof"@ {
        Some(Keyword::TypeOf)
    } else if w == "var"@ {
        Some(Keyword::Var)
    } else if w == "void"@ {
        Some(Keyword::Void)
    } else if w == "while"@ {
        Some(Keyword::While)
    } else if w == "with"@ {
        Some(Keyword::With)
    } else if w == "yield"@ {
        Some(Keyword::Yield)
    } else {
        None
    }
}

/// The keyword that is spelled as `w` holds it, if there is one.
pub fn keyword_of(w: &Vec<char>) -> (r: Option<Keyword>)
    ensures
        r == keyword_named(w@),
{
    if w.len() < 2 || w.len() > 8 {
        proof {
            lemma_keyword_lengths(w@);
        }
        None
    } else if text_is(w, "await") {
        Some(Keyword::Await)
    } else if text_is(w, "break") {
        Some(Keyword::Break)
    } else if text_is(w, "case") {
        Some(Keyword::Case)
    } else if text_is(w, "catch") {
        Some(Keyword::Catch)
    } else if text_is(w, "class") {
        Some(Keyword::Class)
    } else if text_is(w, "const") {
        Some(Keyword::Const)
    } else if text_is(w, "continue") {
        Some(Keyword::Continue)
    } else if text_is(w, "debugger") {
        Some(Keyword::Debugger)
    } else if text_is(w, "default") {
        Some(Keyword::Default_)
    } else if text_is(w, "delete") {
        Some(Keyword::Delete)
    } else if text_is(w, "do") {
        Some(Keyword::Do)
    } else if text_is(w, "else") {
        Some(Keyword::Else)
    } else if text_is(w, "export") {
        Some(Keyword::Export)
    } else if text_is(w, "extends") {
        Some(Keyword::Extends)
    } else if text_is(w, "finally") {
        Some(Keyword::Finally)
    } else if text_is(w, "for") {
        Some(Keyword::For)
    } else if text_is(w, "function") {
        Some(Keyword::Function)
    } else if text_is(w, "if") {
        Some(Keyword::If)
    } else if text_is(w, "import") {
        Some(Keyword::Import)
    } else if text_is(w, "let") {
        Some(Keyword::Let)
    } else if text_is(w, "new") {
        Some(Keyword::New)
    } else if text_is(w, "return") {
        Some(Keyword::Return)
    } else if text_is(w, "super") {
        Some(Keyword::Super)
    } else if text_is(w, "switch") {
        Some(Keyword::Switch)
    } else if text_is(w, "this") {
        Some(Keyword::This)
    } else if text_is(w, "throw") {
        Some(Keyword::Throw)
    } else if text_is(w, "try") {
        Some(Keyword::Try)
    } else if text_is(w, "typeof") {
        Some(Keyword::TypeOf)
    } else if text_is(w, "var") {
        Some(Keyword::Var)
    } else if text_is(w, "void") {
        Some(Keyword::Void)
    } else if text_is(w, "while") {
        Some(Keyword::While)
    } else if text_is(w, "with") {
        Some(Keyword::With)
    } else if text_is(w, "yield") {
        Some(Keyword::Yield)
    } else {
        None
    }
}

/// Every keyword has between two and eight letters.
pub proof fn lemma_keyword_lengths(w: Seq<char>)
    ensures
        keyword_named(w) is Some ==> 2 <= w.len() <= 8,
{
    reveal_strlit("await");
    reveal_strlit("break");
    reveal_strlit("case");
    reveal_strlit("catch");
    reveal_strlit("class");
    reveal_strlit("const");
    reveal_strlit("continue");
    reveal_strlit("debugger");
    reveal_strlit("default");
    reveal_strlit("delete");
    reveal_strlit("do");
    reveal_strlit("else");
    reveal_strlit("export");
    reveal_strlit("extends");
    reveal_strlit("finally");
    reveal_strlit("for");
    reveal_strlit("function");
    reveal_strlit("if");
    reveal_strlit("import");
    reveal_strlit("let");
    reveal_strlit("new");
    reveal_strlit("return");
    reveal_strlit("super");
    reveal_strlit("switch");
    reveal_strlit("this");
    reveal_strlit("throw");
    reveal_strlit("try");
    reveal_strlit("typeof");
    reveal_strlit("var");
    reveal_strlit("void");
    reveal_strlit("while");
    reveal_strlit("with");
    reveal_strlit("yield");
}

/// Words that are reserved everywhere without being keyword tokens.
pub open spec fn always_reserved(w: Seq<char>) -> bool {
    w == "in"@ || w == "instanceof"@ || w == "null"@ || w == "true"@ || w == "false"@ || w
        == "enum"@
}

/// Words that strict code reserves for the future.
pub open spec fn strict_reserved(w: Seq<char>) -> bool {
    w == "implements"@ || w == "interface"@ || w == "package"@ || w == "private"@ || w
        == "protected"@ || w == "public"@ || w == "static"@
}

impl Context {
    /// Whether the word `w` is reserved in code that this context describes:
    /// every keyword but `let`, `yield` and `await` is; `let` is in strict
    /// code; `yield` in strict code and in generators; `await` in modules
    /// and in async functions; the words for the future in strict code.
    pub open spec fn reserves(self, w: Seq<char>) -> bool {
        match keyword_named(w) {
            Some(Keyword::Let) => self.strict,
            Some(Keyword::Yield) => self.strict || self.in_generator,
            Some(Keyword::Await) => self.module || self.in_async,
            Some(_) => true,
            None => always_reserved(w) || (self.strict && strict_reserved(w)),
        }
    }

    /// Whether the word that `w` holds is reserved in code that this context
    /// describes.
    pub fn is_reserved_word(&self, w: &Vec<char>) -> (r: bool)
        ensures
            r == self.reserves(w@),
    {
        match keyword_of(w) {
            Some(Keyword::Let) => self.strict,
            Some(Keyword::Yield) => self.strict || self.in_generator,
            Some(Keyword::Await) => self.module || self.in_async,
            Some(_) => true,
            None => {
                text_is(w, "in") || text_is(w, "instanceof") || text_is(w, "null") || text_is(
                    w,
                    "true",
                ) || text_is(w, "false") || text_is(w, "enum") || (self.strict && (text_is(
                    w,
                    "implements",
                ) || text_is(w, "interface") || text_is(w, "package") || text_is(w, "private")
                    || text_is(w, "protected") || text_is(w, "public") || text_is(w, "static")))
            },
        }
    }
}

} // verus!
