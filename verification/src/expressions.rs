//! MATLAB expressions and the table of documented builtins. An expression's
//! documentation URL is found by scanning its whitespace-separated tokens
//! against the table, first match winning.

use vstd::prelude::*;

use crate::paths::str_eq;

verus! {

/// The characters that separate an expression's tokens: space, tab,
/// carriage return and newline. Tokens are split on these four alone, a
/// narrower separator set than full Unicode whitespace.
pub open spec fn is_space(c: char) -> bool {
    c == ' ' || c == '\t' || c == '\n' || c == '\r'
}

/// `s[i..j]` is one whole whitespace-separated token of `s`.
pub open spec fn token_at(s: Seq<char>, i: int, j: int) -> bool {
    &&& 0 <= i < j <= s.len()
    &&& (i == 0 || is_space(s[i - 1]))
    &&& (j == s.len() || is_space(s[j]))
    &&& forall|k: int| i <= k < j ==> !is_space(s[k])
}

/// The entry at `i` is the first of the table keyed `key`.
pub open spec fn entry_at(t: Seq<(String, String)>, key: Seq<char>, i: int) -> bool {
    &&& 0 <= i < t.len()
    &&& t[i].0@ == key
    &&& forall|j: int| 0 <= j < i ==> (#[trigger] t[j]).0@ != key
}

/// Some entry of the table is keyed `key`.
pub open spec fn table_has(t: Seq<(String, String)>, key: Seq<char>) -> bool {
    exists|i: int| 0 <= i < t.len() && (#[trigger] t[i]).0@ == key
}

/// The documentation path of the first entry keyed `key`.
pub open spec fn table_first(t: Seq<(String, String)>, key: Seq<char>) -> Seq<char> {
    t[choose|i: int| entry_at(t, key, i)].1@
}

/// The table of builtins: names mapped to documentation paths.
#[derive(Debug)]
pub struct MatlabBuiltins {
    pub entries: Vec<(String, String)>,
}

/// The table as it stands before any entries are supplied: empty.
pub fn get_matlab_builtins() -> (r: MatlabBuiltins)
    ensures
        r.entries@.len() == 0,
{
    MatlabBuiltins { entries: Vec::new() }
}

/// A table over the supplied (name, documentation path) pairs.
pub fn init_matlab_builtins(entries: Vec<(String, String)>) -> (r: MatlabBuiltins)
    ensures
        r.entries@ == entries@,
{
    MatlabBuiltins { entries }
}

/// The documentation path of the first entry keyed `key`, if any.
fn table_lookup<'a>(entries: &'a Vec<(String, String)>, key: &str) -> (r: Option<&'a String>)
    ensures
        r matches Some(v) ==> table_has(entries@, key@) && v@ == table_first(entries@, key@),
        r is None ==> !table_has(entries@, key@),
{
    let n = entries.len();
    let mut i: usize = 0;
    while i < n
        invariant
            n == entries@.len(),
            0 <= i <= n,
            forall|j: int| 0 <= j < i ==> (#[trigger] entries@[j]).0@ != key@,
        decreases n - i,
    {
        if str_eq(entries[i].0.as_str(), key) {
            proof {
                assert(entry_at(entries@, key@, i as int));
                let w = choose|w: int| entry_at(entries@, key@, w);
                if w < i {
                    assert(entries@[w].0@ != key@);
                }
                if w > i {
                    assert((#[trigger] entries@[i as int]).0@ != key@);
                }
                assert(w == i as int);
            }
            return Some(&entries[i].1);
        }
        i += 1;
    }
    None
}

/// A MATLAB expression, held as its source text.
#[derive(Debug)]
pub struct Expr {
    pub text: String,
}

impl Expr {
    pub fn new(text: String) -> (r: Self)
        ensures
            r.text == text,
    {
        Self { text }
    }

    /// The documentation URL of the first whitespace-separated token of the
    /// expression that names a documented builtin: the fixed help root, a
    /// slash, and the builtin's documentation path. `None` when no token is
    /// in the table.
    pub fn doc_url(&self, builtins: &MatlabBuiltins) -> (r: Option<String>)
        ensures
            r matches Some(u) ==> exists|i: int, j: int|
                #![trigger token_at(self.text@, i, j)]
                {
                    &&& token_at(self.text@, i, j)
                    &&& table_has(builtins.entries@, self.text@.subrange(i, j))
                    &&& forall|i2: int, j2: int|
                        token_at(self.text@, i2, j2) && j2 <= i ==> !table_has(
                            builtins.entries@,
                            self.text@.subrange(i2, j2),
                        )
                    &&& u@ == "https://www.mathworks.com/help/matlab"@ + "/"@ + table_first(
                        builtins.entries@,
                        self.text@.subrange(i, j),
                    )
                },
            r is None ==> forall|i: int, j: int|
                token_at(self.text@, i, j) ==> !table_has(
                    builtins.entries@,
                    self.text@.subrange(i, j),
                ),
    {
        let s = self.text.as_str();
        let n = s.unicode_len();
        let mut pos: usize = 0;
        loop
            invariant
                n == s@.len(),
                s@ == self.text@,
                0 <= pos <= n,
                pos == 0 || is_space(s@[pos as int - 1]),
                forall|i2: int, j2: int|
                    token_at(s@, i2, j2) && j2 <= pos ==> !table_has(
                        builtins.entries@,
                        s@.subrange(i2, j2),
                    ),
            decreases n - pos,
        {
            // skip separators
            let mut i = pos;
            while i < n && is_space_char(s.get_char(i))
                invariant
                    n == s@.len(),
                    pos <= i <= n,
                    forall|k: int| pos <= k < i ==> is_space(s@[k]),
                decreases n - i,
            {
                i += 1;
            }
            proof {
                // a token cannot end inside a run of separators
                assert forall|i2: int, j2: int|
                    token_at(s@, i2, j2) && j2 <= i implies j2 <= pos by {
                    if pos < j2 {
                        assert(!is_space(s@[j2 - 1]));
                        assert(is_space(s@[j2 - 1]));
                    }
                }
            }
            if i == n {
                proof {
                    assert forall|i2: int, j2: int|
                        token_at(s@, i2, j2) implies !table_has(
                        builtins.entries@,
                        s@.subrange(i2, j2),
                    ) by {
                        assert(j2 <= n);
                    }
                }
                return None;
            }
            // find the token's end
            let mut j = i + 1;
            while j < n && !is_space_char(s.get_char(j))
                invariant
                    n == s@.len(),
                    i < j <= n,
                    forall|k: int| i <= k < j ==> !is_space(s@[k]),
                decreases n - j,
            {
                j += 1;
            }
            assert(token_at(s@, i as int, j as int));
            let token = s.substring_char(i, j).to_owned();
            match table_lookup(&builtins.entries, token.as_str()) {
                Some(path) => {
                    let mut u = "https://www.mathworks.com/help/matlab".to_owned();
                    u.append("/");
                    u.append(path.as_str());
                    return Some(u);
                },
                None => {},
            }
            proof {
                // the only token ending in (pos, j] is the one at (i, j)
                assert forall|i2: int, j2: int|
                    token_at(s@, i2, j2) && j2 <= j + 1 implies !table_has(
                    builtins.entries@,
                    s@.subrange(i2, j2),
                ) by {
                    if j2 > pos {
                        // its last character is no separator, so it ends
                        // past the separator run and before the one at `j`
                        assert(!is_space(s@[j2 - 1]));
                        assert(j2 > i) by {
                            if j2 <= i {
                                assert(is_space(s@[j2 - 1]));
                            }
                        }
                        assert(j2 <= j) by {
                            if j2 == j + 1 {
                                assert(j < n);
                                assert(is_space(s@[j as int]));
                                assert(!is_space(s@[j2 - 1]));
                            }
                        }
                        // it starts exactly at `i`
                        assert(i2 == i as int) by {
                            if i2 > i as int {
                                assert(i as int <= i2 - 1 < j as int);
                                assert(!is_space(s@[i2 - 1]));
                                assert(is_space(s@[i2 - 1]));
                            }
                            if i2 < i as int {
                                assert(i2 <= i - 1 < j2);
                                assert(!is_space(s@[i as int - 1]));
                                if i > pos {
                                    assert(is_space(s@[i as int - 1]));
                                } else {
                                    assert(i == pos && pos > 0);
                                    assert(is_space(s@[pos as int - 1]));
                                }
                            }
                        }
                        // and ends exactly at `j`
                        assert(j2 == j as int) by {
                            if j2 < j as int {
                                assert(i as int <= j2 < j as int);
                                assert(!is_space(s@[j2]));
                                assert(is_space(s@[j2]));
                            }
                        }
                        assert(s@.subrange(i2, j2) == token@);
                    }
                }
            }
            if j == n {
                proof {
                    assert forall|i2: int, j2: int|
                        token_at(s@, i2, j2) implies !table_has(
                        builtins.entries@,
                        s@.subrange(i2, j2),
                    ) by {
                        assert(j2 <= n < j + 1);
                    }
                }
                return None;
            }
            pos = j + 1;
        }
    }
}

/// Whether `c` separates tokens.
fn is_space_char(c: char) -> (r: bool)
    ensures
        r == is_space(c),
{
    c == ' ' || c == '\t' || c == '\n' || c == '\r'
}

} // verus!
