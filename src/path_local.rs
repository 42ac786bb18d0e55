//! Paths inside a replica: the replica's home prefix and the names below it.
use vstd::prelude::*;

verus! {

/// Whether a component is kept: neither empty nor `.`.
pub open spec fn kept(c: Seq<char>) -> bool {
    c.len() > 0 && c != seq!['.']
}

/// Left-to-right scan of a relative path: the names closed so far and the open one.
pub open spec fn scan_state(s: Seq<char>) -> (Seq<Seq<char>>, Seq<char>)
    decreases s.len(),
{
    if s.len() == 0 {
        (Seq::empty(), Seq::empty())
    } else {
        let (acc, cur) = scan_state(s.drop_last());
        if s.last() == '/' {
            (
                if kept(cur) {
                    acc.push(cur)
                } else {
                    acc
                },
                Seq::empty(),
            )
        } else {
            (acc, cur.push(s.last()))
        }
    }
}

/// The names of a relative path split at `/`, without empty and `.` components.
pub open spec fn split_names(s: Seq<char>) -> Seq<Seq<char>> {
    let (acc, cur) = scan_state(s);
    if kept(cur) {
        acc.push(cur)
    } else {
        acc
    }
}

/// Names joined with `/` between them.
pub open spec fn join_names(names: Seq<Seq<char>>) -> Seq<char>
    decreases names.len(),
{
    if names.len() == 0 {
        Seq::empty()
    } else if names.len() == 1 {
        names[0]
    } else {
        join_names(names.drop_last()) + seq!['/'] + names.last()
    }
}

/// `s` followed by one `/` unless it already ends with one.
pub open spec fn with_sep(s: Seq<char>) -> Seq<char> {
    if s.len() > 0 && s.last() == '/' {
        s
    } else {
        s.push('/')
    }
}

/// The full text of a path: the prefix with each name appended after a separator.
pub open spec fn full_text(prefix: Seq<char>, names: Seq<Seq<char>>) -> Seq<char>
    decreases names.len(),
{
    if names.len() == 0 {
        prefix
    } else {
        with_sep(full_text(prefix, names.drop_last())) + names.last()
    }
}

/// A path below a replica's home prefix.
#[derive(Clone, Debug)]
pub struct PathLocal {
    prefix: String,
    names: Vec<String>,
}

/// What a `PathLocal` denotes: its prefix and its names from the top down.
pub struct PathView {
    pub prefix: Seq<char>,
    pub names: Seq<Seq<char>>,
}

impl View for PathLocal {
    type V = PathView;

    closed spec fn view(&self) -> PathView {
        PathView { prefix: self.prefix@, names: self.names@.map_values(|n: String| n@) }
    }
}

fn copy_names(v: &Vec<String>) -> (r: Vec<String>)
    ensures
        r@.map_values(|n: String| n@) == v@.map_values(|n: String| n@),
{
    let mut r: Vec<String> = Vec::new();
    let mut i: usize = 0;
    while i < v.len()
        invariant
            i <= v.len(),
            r@.map_values(|n: String| n@) == v@.subrange(0, i as int).map_values(|n: String| n@),
        decreases v.len() - i,
    {
        let ghost before = r@;
        let x = v[i].clone();
        r.push(x);
        proof {
            lemma_views_push(before, x);
            assert(v@.subrange(0, i + 1) =~= v@.subrange(0, i as int).push(v@[i as int]));
            lemma_views_push(v@.subrange(0, i as int), v@[i as int]);
        }
        i += 1;
    }
    proof {
        assert(v@.subrange(0, v.len() as int) =~= v@);
    }
    r
}

proof fn lemma_views_push(s: Seq<String>, x: String)
    ensures
        s.push(x).map_values(|n: String| n@) == s.map_values(|n: String| n@).push(x@),
{
    assert(s.push(x).map_values(|n: String| n@) =~= s.map_values(|n: String| n@).push(x@));
}

/// The names of `s` split at `/`.
fn split_rel(s: &str) -> (r: Vec<String>)
    ensures
        r@.map_values(|n: String| n@) == split_names(s@),
{
    let len = s.unicode_len();
    let mut acc: Vec<String> = Vec::new();
    let mut start: usize = 0;
    let mut i: usize = 0;
    while i < len
        invariant
            len == s@.len(),
            start <= i <= len,
            scan_state(s@.subrange(0, i as int)) == (
                acc@.map_values(|n: String| n@),
                s@.subrange(start as int, i as int),
            ),
        decreases len - i,
    {
        let c = s.get_char(i);
        let ghost pre = s@.subrange(0, i as int);
        proof {
            assert(s@.subrange(0, i + 1).drop_last() =~= pre);
            assert(s@.subrange(0, i + 1).last() == c);
        }
        if c == '/' {
            let cur = s.substring_char(start, i);
            if keep_name(cur) {
                acc.push(cur.to_string());
                proof {
                    assert(acc@.map_values(|n: String| n@) =~= scan_state(pre).0.push(cur@));
                }
            }
            start = i + 1;
        } else {
            proof {
                assert(s@.subrange(start as int, i + 1) =~= s@.subrange(start as int, i as int).push(
                    c,
                ));
            }
        }
        i += 1;
        proof {
            assert(s@.subrange(start as int, i as int) =~= if c == '/' {
                Seq::empty()
            } else {
                s@.subrange(start as int, i as int)
            });
        }
    }
    proof {
        assert(s@.subrange(0, len as int) =~= s@);
    }
    let cur = s.substring_char(start, len);
    if keep_name(cur) {
        acc.push(cur.to_string());
        proof {
            assert(acc@.map_values(|n: String| n@) =~= split_names(s@));
        }
    }
    acc
}

/// Whether a component is kept (neither empty nor `.`).
fn keep_name(c: &str) -> (r: bool)
    ensures
        r == kept(c@),
{
    let n = c.unicode_len();
    if n == 0 {
        false
    } else if n == 1 {
        let ch = c.get_char(0);
        proof {
            if ch == '.' {
                assert(c@ =~= seq!['.']);
            }
        }
        ch != '.'
    } else {
        proof {
            assert(c@.len() != seq!['.'].len());
        }
        true
    }
}

impl PathLocal {
    /// The path `path` taken relative to `prefix`.
    pub fn new_from_rel(prefix: &str, path: &str) -> (r: Self)
        requires
            !(path@.len() > 0 && path@[0] == '/'),
        ensures
            r@.prefix == prefix@,
            r@.names == split_names(path@),
    {
        let names = split_rel(path);
        Self { prefix: prefix.to_string(), names }
    }

    /// The path whose full text is `path`, which lies below `prefix`.
    pub fn new_from_local(prefix: &str, path: &str) -> (r: Self)
        requires
            prefix@.len() <= path@.len(),
            path@.subrange(0, prefix@.len() as int) == prefix@,
        ensures
            r@.prefix == prefix@,
            r@.names == split_names(path@.subrange(prefix@.len() as int, path@.len() as int)),
    {
        let from = prefix.unicode_len();
        let to = path.unicode_len();
        let rest = path.substring_char(from, to);
        let names = split_rel(rest);
        Self { prefix: prefix.to_string(), names }
    }

    pub fn prefix(&self) -> (r: &String)
        ensures
            r@ == self@.prefix,
    {
        &self.prefix
    }

    /// The child path `name` below this one.
    pub fn join_name(&self, name: &str) -> (r: Self)
        ensures
            r@.prefix == self@.prefix,
            r@.names == self@.names.push(name@),
    {
        let mut names = copy_names(&self.names);
        names.push(name.to_string());
        proof {
            assert(names@.map_values(|n: String| n@) =~= self@.names.push(name@));
        }
        Self { prefix: self.prefix.clone(), names }
    }

    /// The last name, or `None` for the prefix itself.
    pub fn file_name(&self) -> (r: Option<String>)
        ensures
            self@.names.len() == 0 ==> r is None,
            self@.names.len() > 0 ==> r is Some && r->0@ == self@.names.last(),
    {
        let n = self.names.len();
        if n == 0 {
            None
        } else {
            Some(self.names[n - 1].clone())
        }
    }

    /// Removes and returns the last name; `None` (and no change) at the prefix.
    pub fn pop(&mut self) -> (r: Option<String>)
        ensures
            old(self)@.names.len() == 0 ==> r is None && final(self)@ == old(self)@,
            old(self)@.names.len() > 0 ==> r is Some && r->0@ == old(self)@.names.last()
                && final(self)@.prefix == old(self)@.prefix && final(self)@.names == old(
                self,
            )@.names.drop_last(),
    {
        let ghost before = self.names@;
        let r = self.names.pop();
        proof {
            if before.len() > 0 {
                assert(before =~= self.names@.push(r->0));
                lemma_views_push(self.names@, r->0);
                assert(self@.names =~= old(self)@.names.drop_last());
            }
        }
        r
    }

    /// The names from the bottom up: the walk's next step is its last element.
    pub fn get_walk(&self) -> (r: Vec<String>)
        ensures
            r@.map_values(|n: String| n@) == self@.names.reverse(),
    {
        let mut r: Vec<String> = Vec::new();
        let n = self.names.len();
        let mut i: usize = n;
        while i > 0
            invariant
                i <= n == self.names.len(),
                r@.map_values(|x: String| x@) == self@.names.subrange(i as int, n as int).reverse(),
            decreases i,
        {
            i -= 1;
            let ghost before = r@;
            let x = self.names[i].clone();
            r.push(x);
            proof {
                lemma_views_push(before, x);
                assert(r@.map_values(|x: String| x@) =~= self@.names.subrange(
                    i as int,
                    n as int,
                ).reverse());
            }
        }
        proof {
            assert(self@.names.subrange(0, n as int) =~= self@.names);
        }
        r
    }

    /// The path relative to the prefix, names joined with `/`.
    pub fn to_rel(&self) -> (r: String)
        ensures
            r@ == join_names(self@.names),
    {
        let mut r = String::new();
        let mut i: usize = 0;
        while i < self.names.len()
            invariant
                i <= self.names.len(),
                r@ == join_names(self@.names.subrange(0, i as int)),
            decreases self.names.len() - i,
        {
            if i > 0 {
                r.append("/");
            }
            r.append(self.names[i].as_str());
            proof {
                let s = self@.names.subrange(0, i + 1);
                assert(s.drop_last() =~= self@.names.subrange(0, i as int));
                assert(s.last() == self.names@[i as int]@);
                reveal_strlit("/");
            }
            i += 1;
        }
        proof {
            assert(self@.names.subrange(0, self.names.len() as int) =~= self@.names);
        }
        r
    }

    /// The full text of the path.
    pub fn display(&self) -> (r: String)
        ensures
            r@ == full_text(self@.prefix, self@.names),
    {
        let mut r = self.prefix.clone();
        let mut i: usize = 0;
        while i < self.names.len()
            invariant
                i <= self.names.len(),
                r@ == full_text(self@.prefix, self@.names.subrange(0, i as int)),
            decreases self.names.len() - i,
        {
            let n = r.unicode_len();
            let ends_with_sep = n > 0 && r.as_str().get_char(n - 1) == '/';
            if !ends_with_sep {
                r.append("/");
            }
            r.append(self.names[i].as_str());
            proof {
                let s = self@.names.subrange(0, i + 1);
                assert(s.drop_last() =~= self@.names.subrange(0, i as int));
                reveal_strlit("/");
            }
            i += 1;
        }
        proof {
            assert(self@.names.subrange(0, self.names.len() as int) =~= self@.names);
        }
        r
    }

    /// The names from the top down.
    pub fn names(&self) -> (r: &Vec<String>)
        ensures
            r@.map_values(|n: String| n@) == self@.names,
    {
        &self.names
    }

    /// A copy of this path.
    pub fn duplicate(&self) -> (r: Self)
        ensures
            r@ == self@,
    {
        let names = copy_names(&self.names);
        Self { prefix: self.prefix.clone(), names }
    }
}

} // verus!
