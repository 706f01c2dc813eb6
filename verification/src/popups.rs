//! The stack of popup messages to show to the user, and the exact text an
//! error with its chain of causes is rendered to. Showing and closing the
//! popup windows is the rendering layer's job; the messages are built here.

use vstd::prelude::*;

verus! {

/// The decimal digit character for `d`.
pub open spec fn digit_char(d: nat) -> char {
    if d == 0 {
        '0'
    } else if d == 1 {
        '1'
    } else if d == 2 {
        '2'
    } else if d == 3 {
        '3'
    } else if d == 4 {
        '4'
    } else if d == 5 {
        '5'
    } else if d == 6 {
        '6'
    } else if d == 7 {
        '7'
    } else if d == 8 {
        '8'
    } else {
        '9'
    }
}

/// The decimal digits of `n`, most significant first.
pub open spec fn decimal_digits(n: nat) -> Seq<char>
    decreases n,
{
    if n < 10 {
        seq![digit_char(n)]
    } else {
        decimal_digits(n / 10) + seq![digit_char(n % 10)]
    }
}

/// One decimal digit as a string slice.
fn digit_str(d: u64) -> (r: &'static str)
    requires
        d < 10,
    ensures
        r@ == seq![digit_char(d as nat)],
{
    let r: &'static str = match d {
        0 => "0",
        1 => "1",
        2 => "2",
        3 => "3",
        4 => "4",
        5 => "5",
        6 => "6",
        7 => "7",
        8 => "8",
        _ => "9",
    };
    proof {
        reveal_strlit("0");
        reveal_strlit("1");
        reveal_strlit("2");
        reveal_strlit("3");
        reveal_strlit("4");
        reveal_strlit("5");
        reveal_strlit("6");
        reveal_strlit("7");
        reveal_strlit("8");
        reveal_strlit("9");
        assert(r@ =~= seq![digit_char(d as nat)]);
    }
    r
}

/// `n` written in decimal.
pub fn u64_to_string(n: u64) -> (s: String)
    ensures
        s@ == decimal_digits(n as nat),
    decreases n,
{
    if n < 10 {
        digit_str(n).to_owned()
    } else {
        let mut s = u64_to_string(n / 10);
        s.append(digit_str(n % 10));
        s
    }
}

/// The numbered cause lines of an error message: one line per cause,
/// indented, counted from `idx` on.
pub open spec fn numbered_lines(lines: Seq<Seq<char>>, idx: nat) -> Seq<char>
    decreases lines.len(),
{
    if lines.len() == 0 {
        Seq::empty()
    } else {
        seq!['\t'] + decimal_digits(idx) + seq!['.', ' '] + lines[0] + seq!['\n']
            + numbered_lines(lines.drop_first(), (idx + 1) as nat)
    }
}

/// Adding a cause line at the end appends exactly one numbered line.
proof fn lemma_numbered_lines_snoc(lines: Seq<Seq<char>>, idx: nat, x: Seq<char>)
    ensures
        numbered_lines(lines.push(x), idx) == numbered_lines(lines, idx) + (seq!['\t']
            + decimal_digits((idx + lines.len()) as nat) + seq!['.', ' '] + x + seq!['\n']),
    decreases lines.len(),
{
    if lines.len() == 0 {
        assert(lines.push(x)[0] == x);
        assert(lines.push(x).drop_first() =~= Seq::<Seq<char>>::empty());
        assert(numbered_lines(lines.push(x).drop_first(), (idx + 1) as nat)
            == Seq::<char>::empty());
        assert(numbered_lines(lines.push(x), idx) =~= numbered_lines(lines, idx) + (seq!['\t']
            + decimal_digits((idx + lines.len()) as nat) + seq!['.', ' '] + x + seq!['\n']));
    } else {
        assert(lines.push(x)[0] == lines[0]);
        assert(lines.push(x).drop_first() =~= lines.drop_first().push(x));
        lemma_numbered_lines_snoc(lines.drop_first(), (idx + 1) as nat, x);
        assert(numbered_lines(lines.push(x), idx) =~= numbered_lines(lines, idx) + (seq!['\t']
            + decimal_digits((idx + lines.len()) as nat) + seq!['.', ' '] + x + seq!['\n']));
    }
}

/// The full text an error renders to: the error itself on the first line,
/// then one indented, numbered line per cause, outermost first, counted
/// from 1.
pub open spec fn error_message(chain: Seq<Seq<char>>) -> Seq<char>
    recommends
        chain.len() >= 1,
{
    seq!['E', 'r', 'r', 'o', 'r', ':', ' '] + chain[0] + seq!['\n'] + numbered_lines(
        chain.drop_first(),
        1,
    )
}

/// A stack of messages to show to the user, oldest first.
pub struct Popups(pub Vec<String>);

impl Popups {
    /// No messages.
    pub fn new() -> (r: Popups)
        ensures
            r.0@.len() == 0,
    {
        Popups(Vec::new())
    }

    /// Push one error: `chain` is the error's own description followed by
    /// its causes, outermost first, as the error reporter hands them over.
    pub fn error(&mut self, chain: Vec<String>)
        requires
            chain@.len() >= 1,
        ensures
            final(self).0@.len() == old(self).0@.len() + 1,
            forall|k: int| 0 <= k < old(self).0@.len() ==> final(self).0@[k] == old(self).0@[k],
            final(self).0@.last()@ == error_message(chain@.map(|i: int, s: String| s@)),
    {
        let ghost cv = chain@.map(|i: int, s: String| s@);
        let mut s = "Error: ".to_owned();
        proof {
            reveal_strlit("Error: ");
            assert(s@ =~= seq!['E', 'r', 'r', 'o', 'r', ':', ' ']);
        }
        s.append(chain[0].as_str());
        s.append("\n");
        proof {
            reveal_strlit("\n");
            assert("\n"@ =~= seq!['\n']);
            assert(cv.drop_first().take(0) =~= Seq::<Seq<char>>::empty());
            assert(s@ =~= seq!['E', 'r', 'r', 'o', 'r', ':', ' '] + cv[0] + seq!['\n']
                + numbered_lines(cv.drop_first().take(0), 1));
        }
        let mut i: usize = 1;
        while i < chain.len()
            invariant
                1 <= i <= chain@.len(),
                cv == chain@.map(|k: int, s2: String| s2@),
                s@ == seq!['E', 'r', 'r', 'o', 'r', ':', ' '] + cv[0] + seq!['\n']
                    + numbered_lines(cv.drop_first().take(i - 1), 1),
            decreases chain@.len() - i,
        {
            s.append("\t");
            s.append(u64_to_string(i as u64).as_str());
            s.append(". ");
            s.append(chain[i].as_str());
            s.append("\n");
            proof {
                reveal_strlit("\t");
                reveal_strlit(". ");
                reveal_strlit("\n");
                assert("\t"@ =~= seq!['\t']);
                assert(". "@ =~= seq!['.', ' ']);
                assert("\n"@ =~= seq!['\n']);
                let done = cv.drop_first().take(i - 1);
                assert(cv.drop_first().take(i as int) =~= done.push(cv.drop_first()[i - 1]));
                lemma_numbered_lines_snoc(done, 1, cv.drop_first()[i - 1]);
                assert(cv.drop_first()[i - 1] == cv[i as int]);
                assert(cv[i as int] == chain@[i as int]@);
                assert(decimal_digits((1 + done.len()) as nat) == decimal_digits(i as nat));
                assert(s@ =~= seq!['E', 'r', 'r', 'o', 'r', ':', ' '] + cv[0] + seq!['\n']
                    + numbered_lines(cv.drop_first().take(i as int), 1));
            }
            i += 1;
        }
        proof {
            assert(cv.drop_first().take(chain@.len() - 1) =~= cv.drop_first());
        }
        self.0.push(s);
    }
}

} // verus!
