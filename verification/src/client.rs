//! The client side's pure logic: splitting an input line into arguments,
//! with quoting, and building the wire commands the server understands.

use vstd::prelude::*;
use vstd::string::{StringExecFns, StrSliceExecFns};

verus! {

/// The argument parser's mathematical state.
#[verifier::ext_equal]
pub struct ParserModel {
    pub args: Seq<Seq<char>>,
    pub current: Seq<char>,
    pub in_double: bool,
    pub in_single: bool,
}

/// A parser that has consumed nothing.
pub open spec fn pm_init() -> ParserModel {
    ParserModel { args: Seq::empty(), current: Seq::empty(), in_double: false, in_single: false }
}

/// Ends the current argument: a non-empty one joins the argument list.
pub open spec fn pm_push_current(m: ParserModel) -> ParserModel {
    if m.current.len() > 0 {
        ParserModel { args: m.args.push(m.current), current: Seq::empty(), ..m }
    } else {
        m
    }
}

/// A space ends the current argument, unless quotes are open.
pub open spec fn pm_space(m: ParserModel) -> ParserModel {
    if !m.in_double && !m.in_single {
        pm_push_current(m)
    } else {
        ParserModel { current: m.current.push(' '), ..m }
    }
}

/// A double quote opens or closes double quoting — closing ends the current
/// argument — unless single quotes are open, in which case it is an ordinary
/// character.
pub open spec fn pm_double_quote(m: ParserModel) -> ParserModel {
    if !m.in_single {
        let m1 = if m.in_double {
            pm_push_current(m)
        } else {
            m
        };
        ParserModel { in_double: !m.in_double, ..m1 }
    } else {
        ParserModel { current: m.current.push('"'), ..m }
    }
}

/// A single quote, symmetrically to the double quote.
pub open spec fn pm_single_quote(m: ParserModel) -> ParserModel {
    if !m.in_double {
        let m1 = if m.in_single {
            pm_push_current(m)
        } else {
            m
        };
        ParserModel { in_single: !m.in_single, ..m1 }
    } else {
        ParserModel { current: m.current.push('\''), ..m }
    }
}

/// Any other character joins the current argument.
pub open spec fn pm_char(m: ParserModel, c: char) -> ParserModel {
    ParserModel { current: m.current.push(c), ..m }
}

/// One consumed character.
pub open spec fn pm_step(m: ParserModel, c: char) -> ParserModel {
    if c == '"' {
        pm_double_quote(m)
    } else if c == ' ' {
        pm_space(m)
    } else if c == '\'' {
        pm_single_quote(m)
    } else {
        pm_char(m, c)
    }
}

/// A whole character sequence consumed left to right.
pub open spec fn pm_run(m: ParserModel, s: Seq<char>) -> ParserModel
    decreases s.len(),
{
    if s.len() == 0 {
        m
    } else {
        pm_run(pm_step(m, s[0]), s.drop_first())
    }
}

pub proof fn lemma_pm_run_push(m: ParserModel, t: Seq<char>, c: char)
    ensures
        pm_run(m, t.push(c)) == pm_step(pm_run(m, t), c),
    decreases t.len(),
{
    if t.len() == 0 {
        assert(t.push(c)[0] == c);
        assert(t.push(c).drop_first() =~= Seq::<char>::empty());
        assert(pm_run(m, t.push(c)) == pm_run(pm_step(m, c), Seq::<char>::empty()));
        assert(pm_run(pm_step(m, c), Seq::<char>::empty()) == pm_step(m, c));
        assert(pm_run(m, t) == m);
    } else {
        assert(t.push(c)[0] == t[0]);
        assert(t.push(c).drop_first() =~= t.drop_first().push(c));
        assert(pm_run(m, t.push(c)) == pm_run(pm_step(m, t[0]), t.drop_first().push(c)));
        lemma_pm_run_push(pm_step(m, t[0]), t.drop_first(), c);
        assert(pm_run(m, t) == pm_run(pm_step(m, t[0]), t.drop_first()));
    }
}

/// Splits an input line into arguments at spaces, with single and double
/// quotes grouping and nesting as ordinary characters inside each other.
pub struct InputParser {
    pub args: Vec<String>,
    pub current: String,
    pub consumed_double_quote: bool,
    pub consumed_single_quote: bool,
}

impl View for InputParser {
    type V = ParserModel;

    open spec fn view(&self) -> ParserModel {
        ParserModel {
            args: self.args.deep_view(),
            current: self.current@,
            in_double: self.consumed_double_quote,
            in_single: self.consumed_single_quote,
        }
    }
}

impl InputParser {
    /// Pushes the current argument, if non-empty, onto the argument list.
    pub fn push_current(&mut self)
        ensures
            final(self)@ == pm_push_current(old(self)@),
    {
        if !self.current.as_str().is_empty() {
            let arg = self.current.clone();
            self.current = String::new();
            self.args.push(arg);
            proof {
                assert(self.args.deep_view() =~= old(self).args.deep_view().push(arg@));
                assert(self@ =~= pm_push_current(old(self)@));
            }
        } else {
            proof {
                assert(self@ =~= pm_push_current(old(self)@));
            }
        }
    }

    /// Consumes a space: outside quotes it ends the current argument, inside
    /// quotes it is an ordinary character.
    pub fn consume_space(&mut self)
        ensures
            final(self)@ == pm_space(old(self)@),
    {
        if !self.consumed_double_quote && !self.consumed_single_quote {
            self.push_current();
        } else {
            crate::text::push_char(&mut self.current, ' ');
            proof {
                assert(self@ =~= pm_space(old(self)@));
            }
        }
    }

    /// Consumes a double quote, opening or closing double quoting unless
    /// single quoting is open.
    pub fn consume_double_quote(&mut self)
        ensures
            final(self)@ == pm_double_quote(old(self)@),
    {
        if !self.consumed_single_quote {
            if self.consumed_double_quote {
                self.push_current();
            }
            self.consumed_double_quote = !self.consumed_double_quote;
            proof {
                assert(self@ =~= pm_double_quote(old(self)@));
            }
        } else {
            crate::text::push_char(&mut self.current, '"');
            proof {
                assert(self@ =~= pm_double_quote(old(self)@));
            }
        }
    }

    /// Consumes a single quote, opening or closing single quoting unless
    /// double quoting is open.
    pub fn consume_single_quote(&mut self)
        ensures
            final(self)@ == pm_single_quote(old(self)@),
    {
        if !self.consumed_double_quote {
            if self.consumed_single_quote {
                self.push_current();
            }
            self.consumed_single_quote = !self.consumed_single_quote;
            proof {
                assert(self@ =~= pm_single_quote(old(self)@));
            }
        } else {
            crate::text::push_char(&mut self.current, '\'');
            proof {
                assert(self@ =~= pm_single_quote(old(self)@));
            }
        }
    }

    /// Consumes an ordinary character onto the current argument.
    pub fn consume_char(&mut self, c: char)
        ensures
            final(self)@ == pm_char(old(self)@, c),
    {
        crate::text::push_char(&mut self.current, c);
        proof {
            assert(self@ =~= pm_char(old(self)@, c));
        }
    }

    /// To be called when everything has been consumed: ends the last
    /// argument.
    pub fn end(&mut self)
        ensures
            final(self)@ == pm_push_current(old(self)@),
    {
        self.push_current();
    }
}

/// Parses the arguments out of an input line, taking quotes and spaces into
/// consideration.
pub fn parse_input(input: String) -> (r: Vec<String>)
    ensures
        r.deep_view() == pm_push_current(pm_run(pm_init(), input@)).args,
{
    let mut parser = InputParser {
        args: Vec::new(),
        current: String::new(),
        consumed_double_quote: false,
        consumed_single_quote: false,
    };
    proof {
        assert(parser@ =~= pm_init());
    }
    let s = input.as_str();
    let n = s.unicode_len();
    let mut i: usize = 0;
    while i < n
        invariant
            s@ == input@,
            n == s@.len(),
            i <= n,
            parser@ == pm_run(pm_init(), s@.take(i as int)),
        decreases n - i,
    {
        let c = s.get_char(i);
        proof {
            assert(s@.take(i + 1) =~= s@.take(i as int).push(s@[i as int]));
            lemma_pm_run_push(pm_init(), s@.take(i as int), s@[i as int]);
        }
        if c == '"' {
            parser.consume_double_quote();
        } else if c == ' ' {
            parser.consume_space();
        } else if c == '\'' {
            parser.consume_single_quote();
        } else {
            parser.consume_char(c);
        }
        i += 1;
    }
    proof {
        assert(s@.take(n as int) =~= input@);
    }
    parser.end();
    parser.args
}

/// The wire command of a client write: `W$key:value`.
pub fn client_exec_write(key: &String, val: &String) -> (cmd: String)
    ensures
        cmd@ == "W$"@ + key@ + ":"@ + val@,
{
    let mut cmd = "W$".to_owned();
    cmd.append(key.as_str());
    cmd.append(":");
    cmd.append(val.as_str());
    cmd
}

/// The wire command of a client read: `R$key`.
pub fn client_exec_read(key: &String) -> (cmd: String)
    ensures
        cmd@ == "R$"@ + key@,
{
    let mut cmd = "R$".to_owned();
    cmd.append(key.as_str());
    cmd
}

/// The wire command of a client delete: `D$key`.
pub fn client_exec_delete(key: &String) -> (cmd: String)
    ensures
        cmd@ == "D$"@ + key@,
{
    let mut cmd = "D$".to_owned();
    cmd.append(key.as_str());
    cmd
}

} // verus!
