//! A small pretty-printing surface: an indenting formatter that builds its
//! output in a string, and the capability trait the callers' printers
//! implement over it. What the text looks like is the callers' business;
//! this module only guarantees what ends up in the buffer.

use vstd::prelude::*;

verus! {

use vstd::string::StringExecFns;

/// An indentation level rendered as tab characters.
pub open spec fn tabs(n: u32) -> Seq<char> {
    Seq::new(n as nat, |i: int| '\t')
}

/// An indenting formatter that accumulates its output.
pub struct Formatter {
    indent: u32,
    is_indent: bool,
    out: String,
}

impl Formatter {
    /// The indentation level.
    pub closed spec fn spec_indent(&self) -> u32 {
        self.indent
    }

    /// Whether the next print starts a fresh, to-be-indented line.
    pub closed spec fn spec_at_line_start(&self) -> bool {
        self.is_indent
    }

    /// The characters written so far.
    pub closed spec fn spec_out(&self) -> Seq<char> {
        self.out@
    }

    /// A fresh formatter: no indentation, at the start of a line, empty.
    pub fn new() -> (r: Self)
        ensures
            r.spec_indent() == 0,
            r.spec_at_line_start(),
            r.spec_out() == Seq::<char>::empty(),
    {
        Formatter { indent: 0, is_indent: true, out: String::new() }
    }

    /// The output accumulated so far.
    pub fn output(&self) -> (r: &str)
        ensures
            r@ == self.spec_out(),
    {
        self.out.as_str()
    }

    fn print_indent(&mut self)
        ensures
            final(self).spec_out() == old(self).spec_out() + tabs(old(self).spec_indent()),
            final(self).spec_indent() == old(self).spec_indent(),
            final(self).spec_at_line_start() == old(self).spec_at_line_start(),
    {
        let mut k: u32 = 0;
        while k < self.indent
            invariant
                k <= self.indent,
                self.indent == old(self).spec_indent(),
                self.is_indent == old(self).spec_at_line_start(),
                self.out@ == old(self).spec_out() + tabs(k),
            decreases self.indent - k,
        {
            let ghost before = self.out@;
            self.out.append("\t");
            proof {
                reveal_strlit("\t");
                assert(self.out@ =~= old(self).spec_out() + tabs((k + 1) as u32));
            }
            k += 1;
        }
        proof {
            assert(self.out@ =~= old(self).spec_out() + tabs(old(self).spec_indent()));
        }
    }

    /// Append text; a fresh line is first indented.
    pub fn print(&mut self, object: &str)
        ensures
            final(self).spec_out() == old(self).spec_out() + (if old(self).spec_at_line_start() {
                tabs(old(self).spec_indent())
            } else {
                Seq::<char>::empty()
            }) + object@,
            final(self).spec_indent() == old(self).spec_indent(),
            !final(self).spec_at_line_start(),
    {
        if self.is_indent {
            self.print_indent();
        } else {
            proof {
                assert(self.out@ + Seq::<char>::empty() =~= self.out@);
            }
        }
        self.out.append(object);
        self.is_indent = false;
    }

    /// Append text and end the line; a fresh line is first indented.
    pub fn println(&mut self, object: &str)
        ensures
            final(self).spec_out() == old(self).spec_out() + (if old(self).spec_at_line_start() {
                tabs(old(self).spec_indent())
            } else {
                Seq::<char>::empty()
            }) + object@ + seq!['\n'],
            final(self).spec_indent() == old(self).spec_indent(),
            final(self).spec_at_line_start(),
    {
        self.print(object);
        self.out.append("\n");
        self.is_indent = true;
        proof {
            reveal_strlit("\n");
            assert("\n"@ =~= seq!['\n']);
        }
    }

    /// End the line without writing text.
    pub fn new_line(&mut self)
        ensures
            final(self).spec_out() == old(self).spec_out() + seq!['\n'],
            final(self).spec_indent() == old(self).spec_indent(),
            final(self).spec_at_line_start(),
    {
        self.out.append("\n");
        self.is_indent = true;
        proof {
            reveal_strlit("\n");
            assert("\n"@ =~= seq!['\n']);
        }
    }

    /// One level deeper.
    pub fn indent(&mut self)
        requires
            old(self).spec_indent() < u32::MAX,
        ensures
            final(self).spec_indent() == old(self).spec_indent() + 1,
            final(self).spec_out() == old(self).spec_out(),
            final(self).spec_at_line_start() == old(self).spec_at_line_start(),
    {
        self.indent = self.indent + 1;
    }

    /// One level back, at the start of a line.
    pub fn dedent(&mut self)
        requires
            old(self).spec_indent() >= 1,
        ensures
            final(self).spec_indent() == old(self).spec_indent() - 1,
            final(self).spec_out() == old(self).spec_out(),
            final(self).spec_at_line_start(),
    {
        self.is_indent = true;
        self.indent = self.indent - 1;
    }
}

/// The capability a printable structure offers: render itself into a
/// formatter. The callers' printers implement it for their own views of
/// the decoded structures.
pub trait Display {
    /// Render this value into the formatter.
    fn format(&self, f: &mut Formatter);
}

} // verus!
