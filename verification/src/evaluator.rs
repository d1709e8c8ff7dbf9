use vstd::prelude::*;
use crate::piece::Parity;

verus! {

/// One named term of an evaluation, scored for white and for black.
pub struct EvaluationTerm {
    pub white_score: i32,
    pub black_score: i32,
    pub name: String,
}

/// An evaluation: its total and the terms it was made of.
pub struct Evaluator {
    pub eval: i32,
    pub scores: Vec<EvaluationTerm>,
}

/// The sum of both scores of the first `n` terms.
pub open spec fn terms_sum(scores: Seq<EvaluationTerm>, n: int) -> int
    decreases n,
{
    if n <= 0 {
        0
    } else {
        terms_sum(scores, n - 1) + scores[n - 1].white_score + scores[n - 1].black_score
    }
}

/// Rust's integer division, rounding towards zero.
pub open spec fn div_toward_zero(a: int, b: int) -> int {
    if a >= 0 {
        a / b
    } else {
        -((-a) / b)
    }
}

/// The factor by which the half-move clock scales the total: `(100 - h) / 100` rounded
/// towards zero, with `h` the clock read as an `i32`. As an integer division it is 1 for a
/// clock of 0 and 0 for a clock from 1 to 199, so any clock from 1 on zeroes the evaluation
/// until it reaches 200.
pub open spec fn halfmove_factor(halfmove: u64) -> int {
    div_toward_zero(100 - (halfmove as i32) as int, 100)
}

/// Whether two evaluations hold the same total and the same terms, in the same order.
pub open spec fn same_evaluation(a: &Evaluator, b: &Evaluator) -> bool {
    &&& a.eval == b.eval
    &&& a.scores@.len() == b.scores@.len()
    &&& forall|i: int|
        0 <= i < a.scores@.len() ==> (#[trigger] a.scores@[i]).white_score == b.scores@[i].white_score
            && a.scores@[i].black_score == b.scores@[i].black_score && a.scores@[i].name@
            == b.scores@[i].name@
}

impl EvaluationTerm {
    /// A copy of the term.
    pub fn copy(&self) -> (r: EvaluationTerm)
        ensures
            r.white_score == self.white_score,
            r.black_score == self.black_score,
            r.name@ == self.name@,
    {
        EvaluationTerm { white_score: self.white_score, black_score: self.black_score, name: self.name.clone() }
    }

    /// The term as a line: name, tab, `W` and the white score, tab, `B` and the black score.
    pub fn text(&self) -> (r: String)
        ensures
            r@ == self.name@ + "\tW"@ + int_text(self.white_score as int) + "\tB"@ + int_text(
                self.black_score as int,
            ),
    {
        let mut out = self.name.clone();
        out.append("\tW");
        let w = i32_to_string(self.white_score);
        out.append(w.as_str());
        out.append("\tB");
        let b = i32_to_string(self.black_score);
        out.append(b.as_str());
        out
    }
}

/// The decimal text of an integer, with a leading `-` when it is negative.
pub open spec fn int_text(n: int) -> Seq<char>
    decreases (if n < 0 { -n + 1 } else { n }),
{
    if n < 0 {
        seq!['-'] + nat_text(-n)
    } else {
        nat_text(n)
    }
}

/// The decimal text of a natural number.
pub open spec fn nat_text(n: int) -> Seq<char>
    decreases n,
{
    if n < 10 {
        seq![digit_of(n)]
    } else {
        nat_text(n / 10).push(digit_of(n % 10))
    }
}

/// The decimal digit of a number below ten.
pub open spec fn digit_of(d: int) -> char {
    if d <= 0 {
        '0'
    } else if d == 1 {
        '1'
    } else if d == 2 {
        '2'
    } else if d == 3 {
        '3'
    } else if d == 4 {
        '4'
    } else if d == 5 {
        '5'
    } else if d == 6 {
        '6'
    } else if d == 7 {
        '7'
    } else if d == 8 {
        '8'
    } else {
        '9'
    }
}

fn digit_text(d: u64) -> (r: &'static str)
    requires
        d < 10,
    ensures
        r@ == seq![digit_of(d as int)],
{
    proof {
        reveal_strlit("0");
        reveal_strlit("1");
        reveal_strlit("2");
        reveal_strlit("3");
        reveal_strlit("4");
        reveal_strlit("5");
        reveal_strlit("6");
        reveal_strlit("7");
        reveal_strlit("8");
        reveal_strlit("9");
    }
    if d == 0 {
        "0"
    } else if d == 1 {
        "1"
    } else if d == 2 {
        "2"
    } else if d == 3 {
        "3"
    } else if d == 4 {
        "4"
    } else if d == 5 {
        "5"
    } else if d == 6 {
        "6"
    } else if d == 7 {
        "7"
    } else if d == 8 {
        "8"
    } else {
        "9"
    }
}

/// The decimal text of a natural number.
pub fn u64_to_string(n: u64) -> (r: String)
    ensures
        r@ == nat_text(n as int),
    decreases n,
{
    if n < 10 {
        String::from_str(digit_text(n))
    } else {
        let mut s = u64_to_string(n / 10);
        s.append(digit_text(n % 10));
        s
    }
}

/// The decimal text of an integer, as `to_string` writes it.
pub fn i32_to_string(n: i32) -> (r: String)
    ensures
        r@ == int_text(n as int),
{
    if n < 0 {
        let m: u64 = (-(n as i64)) as u64;
        let mut s = String::from_str("-");
        let t = u64_to_string(m);
        s.append(t.as_str());
        proof {
            reveal_strlit("-");
        }
        s
    } else {
        u64_to_string(n as u64)
    }
}

impl Evaluator {
    /// Add a named term.
    pub fn push(&mut self, name: &str, scorepos: i32, scoreneg: i32)
        ensures
            final(self).eval == old(self).eval,
            final(self).scores@.len() == old(self).scores@.len() + 1,
            forall|i: int| 0 <= i < old(self).scores@.len() ==> #[trigger] final(self).scores@[i] == old(self).scores@[i],
            final(self).scores@.last().white_score == scorepos,
            final(self).scores@.last().black_score == scoreneg,
            final(self).scores@.last().name@ == name@,
    {
        self.scores.push(EvaluationTerm { white_score: scorepos, black_score: scoreneg, name: name.to_string() });
    }

    /// Add both scores of every term to the total, then scale it by the half-move factor.
    pub fn finalize(&mut self, halfmove: u64)
        requires
            forall|k: int|
                0 <= k <= old(self).scores@.len() ==> i32::MIN <= old(self).eval + #[trigger] terms_sum(
                    old(self).scores@,
                    k,
                ) <= i32::MAX,
            forall|k: int|
                0 <= k < old(self).scores@.len() ==> i32::MIN <= (#[trigger] old(self).scores@[k]).white_score
                    + old(self).scores@[k].black_score <= i32::MAX,
            i32::MIN <= 100 - (halfmove as i32) as int <= i32::MAX,
            i32::MIN <= (old(self).eval + terms_sum(old(self).scores@, old(self).scores@.len() as int))
                * halfmove_factor(halfmove) <= i32::MAX,
        ensures
            final(self).scores@ == old(self).scores@,
            final(self).eval == (old(self).eval + terms_sum(old(self).scores@, old(self).scores@.len() as int))
                * halfmove_factor(halfmove),
    {
        let mut i: usize = 0;
        while i < self.scores.len()
            invariant
                i <= self.scores@.len(),
                self.scores@ == old(self).scores@,
                self.eval == old(self).eval + terms_sum(old(self).scores@, i as int),
                forall|k: int|
                    0 <= k <= old(self).scores@.len() ==> i32::MIN <= old(self).eval + #[trigger] terms_sum(
                        old(self).scores@,
                        k,
                    ) <= i32::MAX,
                forall|k: int|
                    0 <= k < old(self).scores@.len() ==> i32::MIN <= (#[trigger] old(self).scores@[k]).white_score
                        + old(self).scores@[k].black_score <= i32::MAX,
            decreases self.scores@.len() - i,
        {
            let w = self.scores[i].white_score;
            let b = self.scores[i].black_score;
            proof {
                assert(i32::MIN <= old(self).scores@[i as int].white_score + old(self).scores@[i as int].black_score <= i32::MAX);
                assert(i32::MIN <= old(self).eval + terms_sum(old(self).scores@, i + 1) <= i32::MAX);
            }
            self.eval = self.eval + (w + b);
            i = i + 1;
        }
        let h: i32 = #[verifier::truncate] (halfmove as i32);
        let num: i32 = 100 - h;
        let factor: i32 = if num >= 0 {
            num / 100
        } else {
            -((-(num as i64)) / 100) as i32
        };
        self.eval = self.eval * factor;
    }

    /// A copy of the evaluation.
    pub fn copy(&self) -> (r: Evaluator)
        ensures
            same_evaluation(&r, self),
            r.eval == self.eval,
            r.scores@.len() == self.scores@.len(),
            forall|i: int|
                0 <= i < self.scores@.len() ==> (#[trigger] r.scores@[i]).white_score
                    == self.scores@[i].white_score && r.scores@[i].black_score
                    == self.scores@[i].black_score && r.scores@[i].name@ == self.scores@[i].name@,
    {
        let mut v: Vec<EvaluationTerm> = Vec::new();
        let mut i: usize = 0;
        while i < self.scores.len()
            invariant
                i <= self.scores@.len(),
                v@.len() == i,
                forall|k: int|
                    0 <= k < i ==> (#[trigger] v@[k]).white_score == self.scores@[k].white_score
                        && v@[k].black_score == self.scores@[k].black_score && v@[k].name@
                        == self.scores@[k].name@,
            decreases self.scores@.len() - i,
        {
            v.push(self.scores[i].copy());
            i = i + 1;
        }
        Evaluator { eval: self.eval, scores: v }
    }
}

/// The tempo bonus of the side to move: 28 for white, -28 for any other side.
pub fn tempo(parity: Parity) -> (r: i32)
    ensures
        r == (if parity == Parity::WHITE { 28int } else { -28int }),
{
    28 * if parity == Parity::WHITE {
        1
    } else {
        -1
    }
}

} // verus!
