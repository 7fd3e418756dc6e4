use vstd::prelude::*;

verus! {

/// The characters of `s`, in order.
pub fn chars_of(s: &str) -> (r: Vec<char>)
    ensures
        r@ == s@,
{
    broadcast use vstd::string::axiom_spec_iter;

    let mut out: Vec<char> = Vec::new();
    for c in it: s.chars()
        invariant
            it.seq() == s@,
            out@ == s@.take(it.index() as int),
    {
        assert(s@.take(it.index() + 1) =~= s@.take(it.index() as int).push(c));
        out.push(c);
    }
    assert(s@.take(s@.len() as int) =~= s@);
    out
}

/// `push` of `String` appends one character at the end.
pub assume_specification[ String::push ](s: &mut String, c: char)
    ensures
        final(s)@ == old(s)@.push(c),
;

/// The characters `chars[from..to]` as a string.
pub fn string_of(chars: &Vec<char>, from: usize, to: usize) -> (r: String)
    requires
        from <= to <= chars.len(),
    ensures
        r@ == chars@.subrange(from as int, to as int),
{
    let mut out = String::new();
    let mut i: usize = from;
    while i < to
        invariant
            from <= i <= to <= chars.len(),
            out@ == chars@.subrange(from as int, i as int),
        decreases to - i,
    {
        out.push(chars[i]);
        assert(chars@.subrange(from as int, i + 1) =~= chars@.subrange(from as int, i as int).push(
            chars@[i as int],
        ));
        i += 1;
    }
    out
}

/// The characters `chars[from..to]`.
pub fn part_of(chars: &Vec<char>, from: usize, to: usize) -> (r: Vec<char>)
    requires
        from <= to <= chars.len(),
    ensures
        r@ == chars@.subrange(from as int, to as int),
{
    let mut out: Vec<char> = Vec::new();
    let mut i: usize = from;
    while i < to
        invariant
            from <= i <= to <= chars.len(),
            out@ == chars@.subrange(from as int, i as int),
        decreases to - i,
    {
        out.push(chars[i]);
        assert(chars@.subrange(from as int, i + 1) =~= chars@.subrange(from as int, i as int).push(
            chars@[i as int],
        ));
        i += 1;
    }
    out
}

/// A class of characters that a scanner can ask for.
#[derive(Clone, Copy, Debug, PartialEq, Eq, Structural)]
pub enum CharClass {
    /// `0` to `9`.
    Digit,
    /// What Unicode calls white space.
    Blank,
    /// Anything but white space.
    Solid,
    /// Anything but white space and `;`.
    Word,
    /// Anything but a line feed.
    InLine,
    /// Anything but `;`.
    Plain,
    /// Anything but `)`.
    Coded,
    /// A digit, `-`, `/` or `.`.
    Dated,
}

/// `c` is one of the decimal digits.
pub open spec fn is_digit(c: char) -> bool {
    '0' <= c <= '9'
}

/// `c` has the Unicode property `White_Space`.
pub open spec fn is_blank(c: char) -> bool {
    ||| '\u{9}' <= c <= '\u{d}'
    ||| c == ' '
    ||| c == '\u{85}'
    ||| c == '\u{a0}'
    ||| c == '\u{1680}'
    ||| '\u{2000}' <= c <= '\u{200a}'
    ||| c == '\u{2028}'
    ||| c == '\u{2029}'
    ||| c == '\u{202f}'
    ||| c == '\u{205f}'
    ||| c == '\u{3000}'
}

impl CharClass {
    /// Whether `c` belongs to the class.
    pub open spec fn holds(self, c: char) -> bool {
        match self {
            CharClass::Digit => is_digit(c),
            CharClass::Blank => is_blank(c),
            CharClass::Solid => !is_blank(c),
            CharClass::Word => !is_blank(c) && c != ';',
            CharClass::InLine => c != '\n',
            CharClass::Plain => c != ';',
            CharClass::Coded => c != ')',
            CharClass::Dated => is_digit(c) || c == '-' || c == '/' || c == '.',
        }
    }

    /// Whether `c` belongs to the class.
    pub fn test(self, c: char) -> (r: bool)
        ensures
            r == self.holds(c),
    {
        let blank = ('\u{9}' <= c && c <= '\u{d}') || c == ' ' || c == '\u{85}' || c == '\u{a0}'
            || c == '\u{1680}' || ('\u{2000}' <= c && c <= '\u{200a}') || c == '\u{2028}' || c
            == '\u{2029}' || c == '\u{202f}' || c == '\u{205f}' || c == '\u{3000}';
        match self {
            CharClass::Digit => '0' <= c && c <= '9',
            CharClass::Blank => blank,
            CharClass::Solid => !blank,
            CharClass::Word => !blank && c != ';',
            CharClass::InLine => c != '\n',
            CharClass::Plain => c != ';',
            CharClass::Coded => c != ')',
            CharClass::Dated => ('0' <= c && c <= '9') || c == '-' || c == '/' || c == '.',
        }
    }
}

/// Every character of `s` belongs to `class`.
pub open spec fn all_in(s: Seq<char>, class: CharClass) -> bool {
    forall|i: int| 0 <= i < s.len() ==> class.holds(#[trigger] s[i])
}

/// The length of the longest prefix of `s` whose characters all belong to
/// `class`.
pub open spec fn run_len(s: Seq<char>, class: CharClass) -> nat
    decreases s.len(),
{
    if s.len() == 0 || !class.holds(s[0]) {
        0
    } else {
        1 + run_len(s.skip(1), class)
    }
}

/// The run is a prefix, lies in the class, and ends at the first character
/// outside it.
pub proof fn lemma_run_len(s: Seq<char>, class: CharClass)
    ensures
        run_len(s, class) <= s.len(),
        all_in(s.take(run_len(s, class) as int), class),
        run_len(s, class) < s.len() ==> !class.holds(s[run_len(s, class) as int]),
    decreases s.len(),
{
    if s.len() == 0 || !class.holds(s[0]) {
    } else {
        let t = s.skip(1);
        lemma_run_len(t, class);
        let n = run_len(t, class) as int;
        assert forall|i: int| 0 <= i < n + 1 implies class.holds(#[trigger] s.take(n + 1)[i]) by {
            if i > 0 {
                assert(s.take(n + 1)[i] == t.take(n)[i - 1]);
            }
        }
    }
}

/// A prefix in the class that stops at the end or at a character outside the
/// class is the run.
pub proof fn lemma_run_len_unique(s: Seq<char>, class: CharClass, n: int)
    requires
        0 <= n <= s.len(),
        all_in(s.take(n), class),
        n < s.len() ==> !class.holds(s[n]),
    ensures
        run_len(s, class) == n,
    decreases s.len(),
{
    if n == 0 {
    } else {
        assert(s.take(n)[0] == s[0]);
        let t = s.skip(1);
        assert forall|i: int| 0 <= i < n - 1 implies class.holds(#[trigger] t.take(n - 1)[i]) by {
            assert(t.take(n - 1)[i] == s.take(n)[i + 1]);
        }
        lemma_run_len_unique(t, class, n - 1);
    }
}

/// The length of `s` without the white space at its end.
pub open spec fn trimmed_len(s: Seq<char>) -> nat
    decreases s.len(),
{
    if s.len() == 0 || !is_blank(s.last()) {
        s.len()
    } else {
        trimmed_len(s.drop_last())
    }
}

/// The position after `chars[from..to]` without the white space at its end.
pub fn trim_end(chars: &Vec<char>, from: usize, to: usize) -> (end: usize)
    requires
        from <= to <= chars.len(),
    ensures
        end == from + trimmed_len(chars@.subrange(from as int, to as int)),
        from <= end <= to,
{
    let mut end: usize = to;
    while end > from && CharClass::Blank.test(chars[end - 1])
        invariant
            from <= end <= to <= chars.len(),
            trimmed_len(chars@.subrange(from as int, to as int)) == trimmed_len(
                chars@.subrange(from as int, end as int),
            ),
        decreases end,
    {
        assert(chars@.subrange(from as int, end as int).drop_last() =~= chars@.subrange(
            from as int,
            end - 1,
        ));
        end -= 1;
    }
    end
}

/// The end of the run of `class` that begins at `start`.
pub fn scan(chars: &Vec<char>, start: usize, class: CharClass) -> (end: usize)
    requires
        start <= chars.len(),
    ensures
        end == start + run_len(chars@.skip(start as int), class),
        start <= end <= chars.len(),
{
    let mut i: usize = start;
    while i < chars.len() && class.test(chars[i])
        invariant
            start <= i <= chars.len(),
            all_in(chars@.skip(start as int).take(i - start), class),
        decreases chars.len() - i,
    {
        assert forall|k: int| 0 <= k < i + 1 - start implies class.holds(
            #[trigger] chars@.skip(start as int).take(i + 1 - start)[k],
        ) by {
            if k < i - start {
                assert(chars@.skip(start as int).take(i - start)[k] == chars@[start + k]);
            }
        }
        i += 1;
    }
    proof {
        lemma_run_len_unique(chars@.skip(start as int), class, i - start);
    }
    i
}

} // verus!
