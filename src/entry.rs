use vstd::prelude::*;

verus! {

/// One word of the corpus with its language and part-of-speech tags.
/// Two entries are equal when their words are equal; the tags play no part.
#[derive(Debug)]
pub struct SimpleWord {
    pub lang_code: String,
    pub word: String,
    pub other_pos: Vec<String>,
    pub pos: String,
}

impl PartialEq for SimpleWord {
    fn eq(&self, other: &SimpleWord) -> (r: bool)
        ensures
            r == (self.word@ == other.word@),
    {
        self.word == other.word
    }
}

impl vstd::std_specs::cmp::PartialEqSpecImpl for SimpleWord {
    open spec fn obeys_eq_spec() -> bool {
        true
    }

    open spec fn eq_spec(&self, other: &SimpleWord) -> bool {
        self.word@ == other.word@
    }
}

/// The language that entries must be tagged with to be kept.
pub open spec fn target_language() -> Seq<char> {
    "de"@
}

/// A secondary tag that disqualifies an entry.
pub open spec fn excluded_secondary() -> Seq<char> {
    "name"@
}

/// A primary tag that disqualifies an entry.
pub open spec fn excluded_primary() -> Seq<char> {
    "abbrev"@
}

/// Whether `tags` holds a tag equal to `t`.
pub open spec fn has_tag(tags: Seq<String>, t: Seq<char>) -> bool {
    exists|i: int| 0 <= i < tags.len() && #[trigger] tags[i]@ == t
}

/// An entry of the structured corpus is kept when it is German, carries no
/// "name" tag among its secondary tags and is not an abbreviation.
pub open spec fn keep_spec(e: SimpleWord) -> bool {
    &&& e.lang_code@ == target_language()
    &&& !has_tag(e.other_pos@, excluded_secondary())
    &&& e.pos@ != excluded_primary()
}

/// Decides whether a parsed corpus entry is kept.
pub fn keep_entry(e: &SimpleWord) -> (r: bool)
    ensures
        r == keep_spec(*e),
{
    let de = String::from_str("de");
    let name = String::from_str("name");
    let abbrev = String::from_str("abbrev");
    if !(e.lang_code == de) {
        return false;
    }
    let mut i: usize = 0;
    while i < e.other_pos.len()
        invariant
            name@ == excluded_secondary(),
            i <= e.other_pos@.len(),
            forall|k: int| 0 <= k < i ==> #[trigger] e.other_pos@[k]@ != excluded_secondary(),
        decreases e.other_pos@.len() - i,
    {
        if e.other_pos[i] == name {
            return false;
        }
        i = i + 1;
    }
    !(e.pos == abbrev)
}

/// Keeps, in their order, the entries of a parsed structured corpus that
/// `keep_spec` accepts.
pub fn filter_entries(entries: Vec<SimpleWord>) -> (r: Vec<SimpleWord>)
    ensures
        r@ == entries@.filter(|e: SimpleWord| keep_spec(e)),
{
    let ghost pred = |e: SimpleWord| keep_spec(e);
    let ghost all = entries@;
    let mut kept: Vec<SimpleWord> = Vec::new();
    for e in it: entries.into_iter()
        invariant
            it.seq() == all,
            pred == (|e: SimpleWord| keep_spec(e)),
            kept@ == all.take(it.index() as int).filter(pred),
    {
        let ghost k = it.index() as int;
        proof {
            reveal(Seq::filter);
            assert(all.take(k + 1).drop_last() =~= all.take(k));
            assert(all.take(k + 1).last() == e);
        }
        if keep_entry(&e) {
            kept.push(e);
        }
    }
    proof {
        assert(all.take(all.len() as int) =~= all);
    }
    kept
}

/// Turns the lines of a plain word list into entries: each line is a German
/// word with no part-of-speech tags.
pub fn from_word_list(lines: Vec<String>) -> (r: Vec<SimpleWord>)
    ensures
        r@.len() == lines@.len(),
        forall|i: int|
            0 <= i < lines@.len() ==> {
                &&& (#[trigger] r@[i]).word@ == lines@[i]@
                &&& r@[i].lang_code@ == target_language()
                &&& r@[i].pos@.len() == 0
                &&& r@[i].other_pos@.len() == 0
            },
{
    let ghost all = lines@;
    let mut out: Vec<SimpleWord> = Vec::new();
    for line in it: lines.into_iter()
        invariant
            it.seq() == all,
            out@.len() == it.index(),
            forall|i: int|
                0 <= i < it.index() ==> {
                    &&& (#[trigger] out@[i]).word@ == all[i]@
                    &&& out@[i].lang_code@ == target_language()
                    &&& out@[i].pos@.len() == 0
                    &&& out@[i].other_pos@.len() == 0
                },
    {
        out.push(
            SimpleWord {
                lang_code: String::from_str("de"),
                word: line,
                other_pos: Vec::new(),
                pos: String::new(),
            },
        );
    }
    out
}

} // verus!
