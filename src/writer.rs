use vstd::prelude::*;
use vstd::string::StringExecFns;

verus! {

/// The text of a digit.
pub open spec fn digit_text(d: int) -> Seq<char> {
    if d == 0 { "0"@ } else if d == 1 { "1"@ } else if d == 2 { "2"@ } else if d == 3 { "3"@ }
    else if d == 4 { "4"@ } else if d == 5 { "5"@ } else if d == 6 { "6"@ } else if d == 7 { "7"@ }
    else if d == 8 { "8"@ } else { "9"@ }
}

/// The decimal text of a natural number.
pub open spec fn nat_text(n: nat) -> Seq<char>
    decreases n,
{
    if n < 10 {
        digit_text(n as int)
    } else {
        nat_text(n / 10) + digit_text((n % 10) as int)
    }
}

/// The decimal text of an integer, with a leading `-` when negative.
pub open spec fn int_text(n: int) -> Seq<char> {
    if n < 0 { "-"@ + nat_text((-n) as nat) } else { nat_text(n as nat) }
}

fn digit_str(d: u64) -> (r: &'static str)
    requires
        d < 10,
    ensures
        r@ == digit_text(d as int),
{
    match d {
        0 => "0",
        1 => "1",
        2 => "2",
        3 => "3",
        4 => "4",
        5 => "5",
        6 => "6",
        7 => "7",
        8 => "8",
        _ => "9",
    }
}

/// The decimal text of `n`.
pub fn u64_text(n: u64) -> (r: String)
    ensures
        r@ == nat_text(n as nat),
    decreases n,
{
    if n < 10 {
        String::from_str(digit_str(n))
    } else {
        let mut r = u64_text(n / 10);
        r.append(digit_str(n % 10));
        r
    }
}

/// The decimal text of `n`, negative numbers with a leading `-`.
pub fn i32_text(n: i32) -> (r: String)
    ensures
        r@ == int_text(n as int),
{
    if n < 0 {
        let m: i64 = -(n as i64);
        let mut r = String::from_str("-");
        r.append(u64_text(m as u64).as_str());
        r
    } else {
        u64_text(n as u64)
    }
}

/// What follows part `j` of a statement: a space, or a newline after the last part.
pub open spec fn sep_text(parts: Seq<Seq<char>>, j: int) -> Seq<char> {
    if j == parts.len() - 1 { "\n"@ } else { " "@ }
}

/// The first `i` parts of a statement, each with what follows it.
pub open spec fn stmt_upto(parts: Seq<Seq<char>>, i: int) -> Seq<char>
    decreases i,
{
    if i <= 0 { Seq::empty() } else { stmt_upto(parts, i - 1) + parts[i - 1] + sep_text(parts, i - 1) }
}

/// A statement: the parts separated by single spaces, then a newline.
pub open spec fn stmt_text(parts: Seq<Seq<char>>) -> Seq<char> {
    stmt_upto(parts, parts.len() as int)
}

pub open spec fn parts_view(s: Seq<&str>) -> Seq<Seq<char>> {
    s.map_values(|p: &str| p@)
}

/// The instruction that pushes the int constant `n`: `iconst_<n>` from -1 to 5, `bipush` for
/// one byte, `sipush` for two, `ldc` beyond.
pub open spec fn int_push_text(n: int) -> Seq<char> {
    if n == -1 { "iconst_m1\n"@ }
    else if n == 0 { "iconst_0\n"@ }
    else if n == 1 { "iconst_1\n"@ }
    else if n == 2 { "iconst_2\n"@ }
    else if n == 3 { "iconst_3\n"@ }
    else if n == 4 { "iconst_4\n"@ }
    else if n == 5 { "iconst_5\n"@ }
    else if -128 <= n <= 127 { "bipush "@ + int_text(n) + "\n"@ }
    else if -32768 <= n <= 32767 { "sipush "@ + int_text(n) + "\n"@ }
    else { "ldc "@ + int_text(n) + "\n"@ }
}

/// The label number after `k`.
pub open spec fn next_label(k: nat) -> nat {
    if k < usize::MAX { k + 1 } else { k }
}

/// A `.line` directive.
pub open spec fn line_text(row: nat) -> Seq<char> {
    ".line "@ + nat_text(row) + "\n"@
}

/// A string in double quotes with Rust's escapes, as `{:?}` writes it.
pub uninterp spec fn quoted(s: Seq<char>) -> Seq<char>;

/// Relies on the `Debug` formatting of `str`: a string literal in double quotes with escapes,
/// which depends on the characters alone.
#[verifier::external_body]
fn quote(s: &str) -> (r: String)
    ensures
        r@ == quoted(s@),
{
    format!("{:?}", s)
}

/// The assembly of a class: a header, an initializer and a `main` method, filled into a fixed
/// template.
pub struct ClassWriter {
    /// The name of the source file, without a path
    pub source: String,
    /// The name of this class
    pub name: String,
    /// The superclass of this class
    pub extends: String,
    /// Written first in the class assembly
    pub header: String,
    /// Written into the initializer, after the superclass constructor is called
    pub init: String,
    /// The body of the main method
    pub main: String,
    /// Written last in the class assembly
    pub footer: String,
    /// How many jump labels have been handed out
    pub labels: usize,
}

/// The class assembly for the given parts.
pub open spec fn class_text(
    source: Seq<char>,
    name: Seq<char>,
    extends: Seq<char>,
    header: Seq<char>,
    init: Seq<char>,
    main: Seq<char>,
    footer: Seq<char>,
) -> Seq<char> {
    ".source "@ + source + "\n.class public "@ + name + "\n.super "@ + extends + "\n\n"@ + header
        + "\n\n.method public <init>()V\n    aload_0\n    invokenonvirtual "@ + extends + "/<init>()V\n"@
        + init + "\n    return\n.end method\n\n.method public static main([Ljava/lang/String;)V\n"@ + main
        + "\n    return\n.end method\n"@ + footer
}

/// Only `main` and the label counter change.
pub open spec fn same_frame(c0: ClassWriter, c1: ClassWriter) -> bool {
    c1.source == c0.source && c1.name == c0.name && c1.extends == c0.extends && c1.header == c0.header
        && c1.init == c0.init && c1.footer == c0.footer
}

impl ClassWriter {
    /// An empty class with the given source file name, class name and superclass.
    pub fn new(source: String, name: String, extends: String) -> (r: ClassWriter)
        ensures
            r.source == source,
            r.name == name,
            r.extends == extends,
            r.header@ == Seq::<char>::empty(),
            r.init@ == Seq::<char>::empty(),
            r.main@ == Seq::<char>::empty(),
            r.footer@ == Seq::<char>::empty(),
            r.labels == 0,
    {
        ClassWriter {
            source,
            name,
            extends,
            header: String::new(),
            init: String::new(),
            main: String::new(),
            footer: String::new(),
            labels: 0,
        }
    }

    /// The whole class assembly.
    pub fn write(&self) -> (r: String)
        ensures
            r@ == class_text(self.source@, self.name@, self.extends@, self.header@, self.init@, self.main@, self.footer@),
    {
        let mut r = String::from_str(".source ");
        r.append(self.source.as_str());
        r.append("\n.class public ");
        r.append(self.name.as_str());
        r.append("\n.super ");
        r.append(self.extends.as_str());
        r.append("\n\n");
        r.append(self.header.as_str());
        r.append("\n\n.method public <init>()V\n    aload_0\n    invokenonvirtual ");
        r.append(self.extends.as_str());
        r.append("/<init>()V\n");
        r.append(self.init.as_str());
        r.append("\n    return\n.end method\n\n.method public static main([Ljava/lang/String;)V\n");
        r.append(self.main.as_str());
        r.append("\n    return\n.end method\n");
        r.append(self.footer.as_str());
        r
    }

    /// Appends a statement to `main`: its parts separated by spaces, then a newline.
    pub fn push_stmt(&mut self, statement: &[&str])
        ensures
            final(self).main@ == old(self).main@ + stmt_text(parts_view(statement@)),
            final(self).labels == old(self).labels,
            same_frame(*old(self), *final(self)),
    {
        let ghost parts = parts_view(statement@);
        let ghost m0 = self.main@;
        proof {
            assert(m0 + stmt_upto(parts, 0) =~= m0);
        }
        let mut i: usize = 0;
        while i < statement.len()
            invariant
                i <= statement@.len(),
                parts == parts_view(statement@),
                self.labels == old(self).labels,
                same_frame(*old(self), *self),
                m0 == old(self).main@,
                self.main@ == m0 + stmt_upto(parts, i as int),
            decreases statement@.len() - i,
        {
            let ghost before = self.main@;
            self.main.append(statement[i]);
            if i == statement.len() - 1 {
                self.main.append("\n");
            } else {
                self.main.append(" ");
            }
            proof {
                assert(parts[i as int] == statement@[i as int]@);
                assert(self.main@ =~= m0 + stmt_upto(parts, i + 1));
            }
            i = i + 1;
        }
    }

    /// Appends `s` and a space to `main`.
    pub fn push_main(&mut self, s: &str)
        ensures
            final(self).main@ == old(self).main@ + s@ + " "@,
            final(self).labels == old(self).labels,
            same_frame(*old(self), *final(self)),
    {
        self.main.append(s);
        self.main.append(" ");
    }

    /// Appends `s` to `main`, with no space after it.
    pub fn append_main(&mut self, s: &str)
        ensures
            final(self).main@ == old(self).main@ + s@,
            final(self).labels == old(self).labels,
            same_frame(*old(self), *final(self)),
    {
        self.main.append(s);
    }

    /// Ends the current line of `main`.
    pub fn main_endl(&mut self)
        ensures
            final(self).main@ == old(self).main@ + "\n"@,
            final(self).labels == old(self).labels,
            same_frame(*old(self), *final(self)),
    {
        self.main.append("\n");
    }

    /// Appends `prefix`, the decimal `n` and `suffix` to `main`.
    pub fn append_numbered(&mut self, prefix: &str, n: usize, suffix: &str)
        ensures
            final(self).main@ == old(self).main@ + prefix@ + nat_text(n as nat) + suffix@,
            final(self).labels == old(self).labels,
            same_frame(*old(self), *final(self)),
    {
        self.main.append(prefix);
        self.main.append(u64_text(n as u64).as_str());
        self.main.append(suffix);
    }

    /// Appends the decimal `n`.
    pub fn append_nat(&mut self, n: usize)
        ensures
            final(self).main@ == old(self).main@ + nat_text(n as nat),
            final(self).labels == old(self).labels,
            same_frame(*old(self), *final(self)),
    {
        self.main.append(u64_text(n as u64).as_str());
    }

    /// Appends the decimal `n`.
    pub fn append_int(&mut self, n: i32)
        ensures
            final(self).main@ == old(self).main@ + int_text(n as int),
            final(self).labels == old(self).labels,
            same_frame(*old(self), *final(self)),
    {
        self.main.append(i32_text(n).as_str());
    }

    /// Hands out a fresh label number.
    pub fn fresh_label(&mut self) -> (r: usize)
        ensures
            r == old(self).labels,
            final(self).labels == next_label(old(self).labels as nat),
            final(self).main == old(self).main,
            same_frame(*old(self), *final(self)),
    {
        let r = self.labels;
        self.labels = self.labels.saturating_add(1);
        r
    }

    /// Appends a `.line` directive for `row`.
    pub fn line_directive(&mut self, row: usize)
        ensures
            final(self).main@ == old(self).main@ + line_text(row as nat),
            final(self).labels == old(self).labels,
            same_frame(*old(self), *final(self)),
    {
        self.append_numbered(".line ", row, "\n");
    }

    /// Appends the instruction that pushes the int constant `n`.
    pub fn push_int(&mut self, n: &i32)
        ensures
            final(self).main@ == old(self).main@ + int_push_text(*n as int),
            final(self).labels == old(self).labels,
            same_frame(*old(self), *final(self)),
    {
        let n = *n;
        if -1 <= n && n <= 5 {
            let op = match n {
                -1 => "iconst_m1\n",
                0 => "iconst_0\n",
                1 => "iconst_1\n",
                2 => "iconst_2\n",
                3 => "iconst_3\n",
                4 => "iconst_4\n",
                _ => "iconst_5\n",
            };
            self.main.append(op);
        } else {
            let op = if -128 <= n && n <= 127 {
                "bipush "
            } else if -32768 <= n && n <= 32767 {
                "sipush "
            } else {
                "ldc "
            };
            self.main.append(op);
            self.main.append(i32_text(n).as_str());
            self.main.append("\n");
        }
    }

    /// Appends the instruction that pushes the string constant `s`.
    pub fn push_string(&mut self, s: &str)
        ensures
            final(self).main@ == old(self).main@ + "ldc "@ + quoted(s@) + "\n"@,
            final(self).labels == old(self).labels,
            same_frame(*old(self), *final(self)),
    {
        self.main.append("ldc ");
        self.main.append(quote(s).as_str());
        self.main.append("\n");
    }

    /// Appends `dup`.
    pub fn dup(&mut self)
        ensures
            final(self).main@ == old(self).main@ + "dup\n"@,
            final(self).labels == old(self).labels,
            same_frame(*old(self), *final(self)),
    {
        self.main.append("dup\n");
    }

    /// Appends `dup_x1`.
    pub fn dupx1(&mut self)
        ensures
            final(self).main@ == old(self).main@ + "dup_x1\n"@,
            final(self).labels == old(self).labels,
            same_frame(*old(self), *final(self)),
    {
        self.main.append("dup_x1\n");
    }

    /// Appends `swap`.
    pub fn swap(&mut self)
        ensures
            final(self).main@ == old(self).main@ + "swap\n"@,
            final(self).labels == old(self).labels,
            same_frame(*old(self), *final(self)),
    {
        self.main.append("swap\n");
    }

    /// Appends an assembly fragment verbatim, on a line of its own.
    pub fn jasmin(&mut self, code: &String)
        ensures
            final(self).main@ == old(self).main@ + code@ + " \n"@,
            final(self).labels == old(self).labels,
            same_frame(*old(self), *final(self)),
    {
        self.main.append(code.as_str());
        self.main.append(" \n");
    }
}

} // verus!
