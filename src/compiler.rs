use vstd::prelude::*;

use crate::generator::{render_statement, stmt_text};
use crate::lexer::{is_word_start, word_char};
use crate::syntax_tree::{stmt_view, StatementNode, Stmt};

verus! {

/// `s` with every occurrence of `pat` taken out, scanning left to right.
pub open spec fn without(s: Seq<char>, pat: Seq<char>) -> Seq<char>
    decreases s.len(),
{
    if s.len() == 0 {
        s
    } else if 0 < pat.len() <= s.len() && s.subrange(0, pat.len() as int) == pat {
        without(s.subrange(pat.len() as int, s.len() as int), pat)
    } else {
        seq![s[0]] + without(s.subrange(1, s.len() as int), pat)
    }
}

/// A Java source file: one public class whose body is the program.
pub open spec fn program_text(class_name: Seq<char>, program: Stmt) -> Seq<char> {
    "public class "@ + class_name + " {\n"@ + stmt_text(program) + "\n}"@
}

/// Renders a parsed program as the source of a Java class.
pub struct Compiler {
    pub main_file_name: String,
    pub directory: String,
}

/// Whether `pat` occurs in `s` at position `i`.
fn occurs_at(s: &str, i: usize, pat: &str) -> (r: bool)
    requires
        i <= s@.len(),
    ensures
        r == (i + pat@.len() <= s@.len() && s@.subrange(i as int, i + pat@.len()) == pat@),
{
    let n = s.unicode_len();
    let m = pat.unicode_len();
    if m > n - i {
        return false;
    }
    let mut j: usize = 0;
    while j < m
        invariant
            n == s@.len(),
            m == pat@.len(),
            i + m <= n,
            0 <= j <= m,
            forall|k: int| 0 <= k < j ==> s@[i + k] == pat@[k],
        decreases m - j,
    {
        if s.get_char(i + j) != pat.get_char(j) {
            assert(s@.subrange(i as int, i + m)[j as int] != pat@[j as int]);
            return false;
        }
        j = j + 1;
    }
    assert(s@.subrange(i as int, i + m) =~= pat@);
    true
}

/// `s` with every occurrence of `pat` taken out.
fn remove_all(s: &str, pat: &str) -> (r: String)
    ensures
        r@ == without(s@, pat@),
{
    let n = s.unicode_len();
    let m = pat.unicode_len();
    let mut out = String::new();
    let mut i: usize = 0;
    assert(s@.subrange(0, n as int) =~= s@);
    assert(out@ + without(s@, pat@) =~= without(s@, pat@));
    while i < n
        invariant
            n == s@.len(),
            m == pat@.len(),
            0 <= i <= n,
            out@ + without(s@.subrange(i as int, n as int), pat@) == without(s@, pat@),
        decreases n - i,
    {
        let ghost rest = s@.subrange(i as int, n as int);
        if m > 0 && occurs_at(s, i, pat) {
            assert(rest.subrange(0, m as int) =~= s@.subrange(i as int, i + m));
            assert(rest.subrange(m as int, rest.len() as int) =~= s@.subrange(i + m, n as int));
            i = i + m;
        } else {
            assert(!(0 < pat@.len() <= rest.len() && rest.subrange(0, pat@.len() as int) == pat@)) by {
                if 0 < pat@.len() <= rest.len() {
                    assert(rest.subrange(0, m as int) =~= s@.subrange(i as int, i + m));
                }
            }
            assert(rest.subrange(1, rest.len() as int) =~= s@.subrange(i + 1, n as int));
            let c = s.substring_char(i, i + 1);
            assert(c@ =~= seq![rest[0]]);
            let ghost before = out@;
            out.append(c);
            assert(out@ + without(s@.subrange(i + 1, n as int), pat@) =~= before + without(rest, pat@));
            i = i + 1;
        }
    }
    assert(s@.subrange(n as int, n as int) =~= Seq::<char>::empty());
    assert(out@ + without(Seq::<char>::empty(), pat@) =~= out@);
    out
}

/// What `char::to_uppercase` gives for a character.
pub uninterp spec fn upper_of(c: char) -> Seq<char>;

/// Relies on `char::to_uppercase`, collected into a string; the result
/// depends on the character alone.
#[verifier::external_body]
fn to_uppercase(c: char) -> (r: String)
    ensures
        r@ == upper_of(c),
{
    c.to_uppercase().collect()
}

/// The characters of `s` that can stand in a word (letters, digits, `_`).
pub open spec fn word_chars(s: Seq<char>) -> Seq<char>
    decreases s.len(),
{
    if s.len() == 0 {
        s
    } else {
        word_chars(s.drop_last()) + if word_char(s.last()) {
            seq![s.last()]
        } else {
            Seq::empty()
        }
    }
}

/// A class name made from a file stem: its word characters, the first one
/// in upper case.
pub open spec fn class_name_of(stem: Seq<char>) -> Seq<char> {
    let w = word_chars(stem);
    if w.len() == 0 {
        w
    } else {
        upper_of(w[0]) + w.subrange(1, w.len() as int)
    }
}

/// The class name for a file stem.
pub fn class_name(stem: &str) -> (r: String)
    ensures
        r@ == class_name_of(stem@),
{
    let n = stem.unicode_len();
    let mut kept = String::new();
    let mut i: usize = 0;
    while i < n
        invariant
            n == stem@.len(),
            0 <= i <= n,
            kept@ == word_chars(stem@.subrange(0, i as int)),
        decreases n - i,
    {
        let c = stem.get_char(i);
        assert(stem@.subrange(0, i + 1).drop_last() =~= stem@.subrange(0, i as int));
        if is_word_start(c) {
            let one = stem.substring_char(i, i + 1);
            assert(one@ =~= seq![c]);
            kept.append(one);
        } else {
            assert(kept@ =~= kept@ + Seq::<char>::empty());
        }
        i = i + 1;
    }
    assert(stem@.subrange(0, n as int) =~= stem@);
    let m = kept.unicode_len();
    if m == 0 {
        return kept;
    }
    let mut out = to_uppercase(kept.as_str().get_char(0));
    out.append(kept.as_str().substring_char(1, m));
    out
}

impl Compiler {
    /// A compiler for the class named after `main_file_name`, with any
    /// `.java` in the name taken out.
    pub fn new(main_file_name: String, directory: String) -> (r: Compiler)
        ensures
            r.main_file_name@ == without(main_file_name@, ".java"@),
            r.directory == directory,
    {
        Compiler { main_file_name: remove_all(main_file_name.as_str(), ".java"), directory }
    }

    /// The Java source of `program`, a class named `main_file_name`
    /// around the rendered program root.
    pub fn compile(&self, program: &StatementNode) -> (r: String)
        ensures
            r@ == program_text(self.main_file_name@, stmt_view(*program)),
    {
        let mut out = String::from_str("public class ");
        out.append(self.main_file_name.as_str());
        out.append(" {\n");
        let body = render_statement(program);
        out.append(body.as_str());
        out.append("\n}");
        out
    }
}

} // verus!
