//! The SSH client configuration grammar: `Host <pattern...>` lines open
//! blocks, `Key Value` lines inside a block are its options, and the lookup
//! scans blocks in file order, first match wins.
//!
//! The grammar is line-oriented and total: a line is a `Host` line, an
//! option line (two or more words, not starting with `#`), or ignored.
//! Keywords are matched exactly; option values with embedded spaces are not
//! modeled, the second word is the value. Lines before the first `Host`
//! line belong to no block.

use vstd::prelude::*;
use crate::bytes::{spec_lines, split_lines};

verus! {

use vstd::string::StringSliceAdditionalSpecFns;

/// Space or tab.
pub open spec fn spec_is_blank(b: u8) -> bool {
    b == 0x20 || b == 0x09
}

/// First non-blank position at or after `i`.
pub open spec fn spec_blank_end(s: Seq<u8>, i: int) -> int
    decreases s.len() - i,
{
    if 0 <= i < s.len() && spec_is_blank(s[i]) {
        spec_blank_end(s, i + 1)
    } else {
        i
    }
}

/// First blank position at or after `i`.
pub open spec fn spec_word_end(s: Seq<u8>, i: int) -> int
    decreases s.len() - i,
{
    if 0 <= i < s.len() && !spec_is_blank(s[i]) {
        spec_word_end(s, i + 1)
    } else {
        i
    }
}

proof fn lemma_blank_end_bounds(s: Seq<u8>, i: int)
    ensures
        i <= spec_blank_end(s, i),
        i <= s.len() ==> spec_blank_end(s, i) <= s.len(),
    decreases s.len() - i,
{
    if 0 <= i < s.len() && spec_is_blank(s[i]) {
        lemma_blank_end_bounds(s, i + 1);
    }
}

proof fn lemma_blank_end_not_blank(s: Seq<u8>, i: int)
    ensures
        0 <= i && spec_blank_end(s, i) < s.len() ==> !spec_is_blank(s[spec_blank_end(s, i)]),
    decreases s.len() - i,
{
    if 0 <= i < s.len() && spec_is_blank(s[i]) {
        lemma_blank_end_not_blank(s, i + 1);
    }
}

proof fn lemma_word_end_bounds(s: Seq<u8>, i: int)
    ensures
        i <= spec_word_end(s, i),
        i <= s.len() ==> spec_word_end(s, i) <= s.len(),
    decreases s.len() - i,
{
    if 0 <= i < s.len() && !spec_is_blank(s[i]) {
        lemma_word_end_bounds(s, i + 1);
    }
}

/// The blank-separated words of `s` from `i` on.
pub open spec fn spec_tokens_from(s: Seq<u8>, i: int) -> Seq<Seq<u8>>
    decreases s.len() - i,
    via spec_tokens_from_decreases
{
    if !(0 <= i <= s.len()) {
        Seq::empty()
    } else {
        let j = spec_blank_end(s, i);
        if j >= s.len() {
            Seq::empty()
        } else {
            let e = spec_word_end(s, j);
            seq![s.subrange(j, e)] + spec_tokens_from(s, e)
        }
    }
}

#[via_fn]
proof fn spec_tokens_from_decreases(s: Seq<u8>, i: int) {
    if 0 <= i <= s.len() {
        lemma_blank_end_bounds(s, i);
        lemma_blank_end_not_blank(s, i);
        let j = spec_blank_end(s, i);
        if j < s.len() {
            lemma_word_end_bounds(s, j + 1);
            assert(spec_word_end(s, j) == spec_word_end(s, j + 1));
        }
    }
}

/// The blank-separated words of a line.
pub open spec fn spec_tokens(s: Seq<u8>) -> Seq<Seq<u8>> {
    spec_tokens_from(s, 0)
}

/// Splits a line into words.
pub fn tokens(s: &Vec<u8>) -> (r: Vec<Vec<u8>>)
    ensures
        r@.len() == spec_tokens(s@).len(),
        forall|k: int| 0 <= k < r@.len() ==> r@[k]@ == spec_tokens(s@)[k],
{
    let mut r: Vec<Vec<u8>> = Vec::new();
    let mut i: usize = 0;
    proof {
        assert(r@.map_values(|v: Vec<u8>| v@) =~= Seq::<Seq<u8>>::empty());
    }
    while i < s.len()
        invariant
            i <= s@.len(),
            spec_tokens(s@) == r@.map_values(|v: Vec<u8>| v@) + spec_tokens_from(s@, i as int),
        decreases s@.len() - i,
    {
        // skip blanks
        let mut j = i;
        while j < s.len() && (s[j] == 0x20 || s[j] == 0x09)
            invariant
                i <= j <= s@.len(),
                spec_blank_end(s@, i as int) == spec_blank_end(s@, j as int),
            decreases s@.len() - j,
        {
            j = j + 1;
        }
        proof {
            lemma_blank_end_bounds(s@, j as int);
            assert(spec_blank_end(s@, i as int) == j);
        }
        if j >= s.len() {
            i = j;
            proof {
                assert(spec_tokens_from(s@, i as int) =~= Seq::<Seq<u8>>::empty());
            }
            continue ;
        }
        let mut e = j;
        while e < s.len() && !(s[e] == 0x20 || s[e] == 0x09)
            invariant
                j <= e <= s@.len(),
                spec_word_end(s@, j as int) == spec_word_end(s@, e as int),
            decreases s@.len() - e,
        {
            e = e + 1;
        }
        proof {
            lemma_word_end_bounds(s@, e as int);
            assert(spec_word_end(s@, j as int) == e);
        }
        let word = crate::bytes::sub_bytes(s, j, e);
        let ghost old_r = r@;
        r.push(word);
        proof {
            assert(r@.map_values(|v: Vec<u8>| v@) =~= old_r.map_values(|v: Vec<u8>| v@).push(
                word@,
            ));
            assert(spec_tokens_from(s@, i as int) =~= seq![word@] + spec_tokens_from(
                s@,
                e as int,
            ));
            assert(spec_tokens(s@) =~= r@.map_values(|v: Vec<u8>| v@) + spec_tokens_from(
                s@,
                e as int,
            ));
        }
        i = e;
    }
    proof {
        if i >= s@.len() {
            assert(spec_tokens_from(s@, i as int) =~= Seq::<Seq<u8>>::empty());
        }
        assert(spec_tokens(s@) =~= r@.map_values(|v: Vec<u8>| v@));
        assert(forall|k: int|
            0 <= k < r@.len() ==> r@.map_values(|v: Vec<u8>| v@)[k] == #[trigger] r@[k]@);
    }
    r
}

/// Glob matching over the whole of `h`: `*` stands for any run of bytes,
/// every other byte stands for itself.
pub open spec fn spec_glob_match(p: Seq<u8>, h: Seq<u8>) -> bool
    decreases p.len(), h.len(),
{
    if p.len() == 0 {
        h.len() == 0
    } else if p[0] == '*' as u8 {
        spec_glob_match(p.subrange(1, p.len() as int), h) || (h.len() > 0 && spec_glob_match(
            p,
            h.subrange(1, h.len() as int),
        ))
    } else {
        h.len() > 0 && p[0] == h[0] && spec_glob_match(
            p.subrange(1, p.len() as int),
            h.subrange(1, h.len() as int),
        )
    }
}

/// Whether pattern `p[pi..]` matches all of `h[hi..]`.
fn glob_match_from(p: &Vec<u8>, h: &Vec<u8>, pi: usize, hi: usize) -> (r: bool)
    requires
        pi <= p@.len(),
        hi <= h@.len(),
    ensures
        r == spec_glob_match(
            p@.subrange(pi as int, p@.len() as int),
            h@.subrange(hi as int, h@.len() as int),
        ),
    decreases p@.len() - pi, h@.len() - hi,
{
    let ghost ps = p@.subrange(pi as int, p@.len() as int);
    let ghost hs = h@.subrange(hi as int, h@.len() as int);
    if pi == p.len() {
        assert(ps.len() == 0);
        return hi == h.len();
    }
    assert(ps[0] == p@[pi as int]);
    if p[pi] == '*' as u8 {
        let a = glob_match_from(p, h, pi + 1, hi);
        proof {
            assert(p@.subrange(pi + 1 as int, p@.len() as int) =~= ps.subrange(
                1,
                ps.len() as int,
            ));
        }
        if a {
            return true;
        }
        if hi < h.len() {
            let b = glob_match_from(p, h, pi, hi + 1);
            proof {
                assert(h@.subrange(hi + 1 as int, h@.len() as int) =~= hs.subrange(
                    1,
                    hs.len() as int,
                ));
            }
            b
        } else {
            false
        }
    } else {
        if hi == h.len() {
            return false;
        }
        if p[pi] != h[hi] {
            assert(hs[0] == h@[hi as int]);
            return false;
        }
        let c = glob_match_from(p, h, pi + 1, hi + 1);
        proof {
            assert(p@.subrange(pi + 1 as int, p@.len() as int) =~= ps.subrange(1, ps.len() as int));
            assert(h@.subrange(hi + 1 as int, h@.len() as int) =~= hs.subrange(1, hs.len() as int));
            assert(hs[0] == h@[hi as int]);
        }
        c
    }
}

/// Whether `p` glob-matches the whole of `h`.
pub fn glob_match(p: &Vec<u8>, h: &Vec<u8>) -> (r: bool)
    ensures
        r == spec_glob_match(p@, h@),
{
    let r = glob_match_from(p, h, 0, 0);
    proof {
        assert(p@.subrange(0, p@.len() as int) =~= p@);
        assert(h@.subrange(0, h@.len() as int) =~= h@);
    }
    r
}

/// One `Host` block: its patterns and its `Key Value` options, in file
/// order.
pub struct SshConfigEntry {
    pub patterns: Vec<Vec<u8>>,
    pub options: Vec<(Vec<u8>, Vec<u8>)>,
}

/// The ghost mirror of an entry.
pub struct SpecSshConfigEntry {
    pub patterns: Seq<Seq<u8>>,
    pub options: Seq<(Seq<u8>, Seq<u8>)>,
}

/// The ghost view of a pattern list.
pub open spec fn spec_vecs_view(s: Seq<Vec<u8>>) -> Seq<Seq<u8>> {
    s.map_values(|v: Vec<u8>| v@)
}

/// The ghost view of an option list.
pub open spec fn spec_options_view(s: Seq<(Vec<u8>, Vec<u8>)>) -> Seq<(Seq<u8>, Seq<u8>)> {
    s.map_values(|p: (Vec<u8>, Vec<u8>)| (p.0@, p.1@))
}

impl View for SshConfigEntry {
    type V = SpecSshConfigEntry;

    open spec fn view(&self) -> SpecSshConfigEntry {
        SpecSshConfigEntry {
            patterns: spec_vecs_view(self.patterns@),
            options: spec_options_view(self.options@),
        }
    }
}

/// `Host`
pub open spec fn spec_host_keyword() -> Seq<u8> {
    seq!['H' as u8, 'o' as u8, 's' as u8, 't' as u8]
}

/// `IdentityFile`
pub open spec fn spec_identity_file_keyword() -> Seq<u8> {
    seq![
        'I' as u8, 'd' as u8, 'e' as u8, 'n' as u8, 't' as u8, 'i' as u8, 't' as u8, 'y' as u8,
        'F' as u8, 'i' as u8, 'l' as u8, 'e' as u8,
    ]
}

/// A line opening a block: its first word is `Host`.
pub open spec fn spec_is_host_line(line: Seq<u8>) -> bool {
    spec_tokens(line).len() > 0 && spec_tokens(line)[0] == spec_host_keyword()
}

/// A line carrying an option: at least two words, not a comment.
pub open spec fn spec_is_option_line(line: Seq<u8>) -> bool {
    spec_tokens(line).len() >= 2 && spec_tokens(line)[0].len() > 0 && spec_tokens(line)[0][0]
        != '#' as u8 && !spec_is_host_line(line)
}

/// The block a `Host` line opens, before its options are read.
pub open spec fn spec_open_entry(line: Seq<u8>) -> SpecSshConfigEntry {
    SpecSshConfigEntry {
        patterns: spec_tokens(line).subrange(1, spec_tokens(line).len() as int),
        options: Seq::empty(),
    }
}

/// The entries from line `i` on, with `cur` the block still being filled.
pub open spec fn spec_entries_acc(
    lines: Seq<Seq<u8>>,
    i: int,
    cur: SpecSshConfigEntry,
) -> Seq<SpecSshConfigEntry>
    decreases lines.len() - i,
{
    if !(0 <= i < lines.len()) {
        seq![cur]
    } else if spec_is_host_line(lines[i]) {
        seq![cur] + spec_entries_acc(lines, i + 1, spec_open_entry(lines[i]))
    } else if spec_is_option_line(lines[i]) {
        spec_entries_acc(
            lines,
            i + 1,
            SpecSshConfigEntry {
                patterns: cur.patterns,
                options: cur.options.push((spec_tokens(lines[i])[0], spec_tokens(lines[i])[1])),
            },
        )
    } else {
        spec_entries_acc(lines, i + 1, cur)
    }
}

/// The entries from line `i` on, before any block has opened.
pub open spec fn spec_entries_start(lines: Seq<Seq<u8>>, i: int) -> Seq<SpecSshConfigEntry>
    decreases lines.len() - i,
{
    if !(0 <= i < lines.len()) {
        Seq::empty()
    } else if spec_is_host_line(lines[i]) {
        spec_entries_acc(lines, i + 1, spec_open_entry(lines[i]))
    } else {
        spec_entries_start(lines, i + 1)
    }
}

/// The blocks of a whole configuration file.
pub open spec fn spec_parse_config(contents: Seq<u8>) -> Seq<SpecSshConfigEntry> {
    spec_entries_start(spec_lines(contents), 0)
}

/// The ghost view of an entry list.
pub open spec fn spec_entries_view(es: Seq<SshConfigEntry>) -> Seq<SpecSshConfigEntry> {
    es.map_values(|e: SshConfigEntry| e@)
}

/// The parser of SSH client configuration files.
pub struct SSHConfigParser {}

/// Reads a line's words and classifies it; shared by the parser loop.
fn classify_line(line: &Vec<u8>) -> (r: (Vec<Vec<u8>>, bool, bool))
    ensures
        r.0@.len() == spec_tokens(line@).len(),
        forall|k: int| 0 <= k < r.0@.len() ==> r.0@[k]@ == spec_tokens(line@)[k],
        r.1 == spec_is_host_line(line@),
        r.2 == spec_is_option_line(line@),
{
    let toks = tokens(line);
    let mut is_host = false;
    if toks.len() > 0 {
        let mut hostkw: Vec<u8> = Vec::new();
        hostkw.push('H' as u8);
        hostkw.push('o' as u8);
        hostkw.push('s' as u8);
        hostkw.push('t' as u8);
        assert(hostkw@ =~= spec_host_keyword());
        is_host = crate::bytes::range_eq(&toks[0], 0, toks[0].len(), &hostkw);
        assert(toks@[0]@.subrange(0, toks@[0]@.len() as int) =~= toks@[0]@);
    }
    let mut is_option = false;
    if !is_host && toks.len() >= 2 && toks[0].len() > 0 && toks[0][0] != '#' as u8 {
        is_option = true;
    }
    (toks, is_host, is_option)
}

impl SSHConfigParser {
    /// Parses a configuration file's bytes into its `Host` blocks.
    pub fn parse(contents: &Vec<u8>) -> (r: Vec<SshConfigEntry>)
        ensures
            spec_entries_view(r@) == spec_parse_config(contents@),
    {
        let lines = split_lines(contents);
        let ghost linesv = spec_lines(contents@);
        let mut out: Vec<SshConfigEntry> = Vec::new();
        let mut cur: Option<SshConfigEntry> = None;
        let mut i: usize = 0;
        proof {
            assert(spec_entries_view(out@) =~= Seq::<SpecSshConfigEntry>::empty());
        }
        while i < lines.len()
            invariant
                i <= lines@.len(),
                lines@.len() == linesv.len(),
                forall|k: int| 0 <= k < lines@.len() ==> lines@[k]@ == linesv[k],
                match cur {
                    Some(c) => spec_entries_start(linesv, 0) == spec_entries_view(out@)
                        + spec_entries_acc(linesv, i as int, c@),
                    None => spec_entries_start(linesv, 0) == spec_entries_view(out@)
                        + spec_entries_start(linesv, i as int) && out@.len() == 0,
                },
            decreases lines@.len() - i,
        {
            let (toks, is_host, is_option) = classify_line(&lines[i]);
            if is_host {
                let mut patterns: Vec<Vec<u8>> = Vec::new();
                let mut k: usize = 1;
                while k < toks.len()
                    invariant
                        1 <= k <= toks@.len(),
                        patterns@.len() == k - 1,
                        forall|m: int| 0 <= m < patterns@.len() ==> patterns@[m]@ == toks@[m + 1]@,
                    decreases toks@.len() - k,
                {
                    patterns.push(toks[k].clone());
                    k = k + 1;
                }
                let opened = SshConfigEntry { patterns, options: Vec::new() };
                proof {
                    assert(opened@.patterns =~= spec_open_entry(linesv[i as int]).patterns);
                    assert(opened@.options =~= spec_open_entry(linesv[i as int]).options);
                    assert(opened@ == spec_open_entry(linesv[i as int]));
                }
                match cur {
                    Some(c) => {
                        let ghost old_out = out@;
                        out.push(c);
                        proof {
                            assert(spec_entries_view(out@) =~= spec_entries_view(old_out).push(
                                c@,
                            ));
                            assert(spec_entries_view(old_out) + (seq![c@] + spec_entries_acc(
                                linesv,
                                i + 1 as int,
                                opened@,
                            )) =~= spec_entries_view(out@) + spec_entries_acc(
                                linesv,
                                i + 1 as int,
                                opened@,
                            ));
                        }
                        cur = Some(opened);
                    },
                    None => {
                        cur = Some(opened);
                    },
                }
            } else if is_option {
                match cur {
                    Some(c) => {
                        let ghost cv = c@;
                        let mut c2 = c;
                        c2.options.push((toks[0].clone(), toks[1].clone()));
                        proof {
                            let t0 = spec_tokens(linesv[i as int])[0];
                            let t1 = spec_tokens(linesv[i as int])[1];
                            assert(c2@.options =~= cv.options.push((t0, t1)));
                            assert(c2@ == (SpecSshConfigEntry {
                                patterns: cv.patterns,
                                options: cv.options.push((t0, t1)),
                            }));
                        }
                        cur = Some(c2);
                    },
                    None => {
                        cur = None;
                    },
                }
            } else {
            }
            i = i + 1;
        }
        match cur {
            Some(c) => {
                let ghost old_out = out@;
                out.push(c);
                proof {
                    assert(spec_entries_acc(linesv, lines@.len() as int, c@) =~= seq![c@]);
                    assert(spec_entries_view(out@) =~= spec_entries_view(old_out).push(c@));
                    assert(spec_entries_view(out@) =~= spec_entries_view(old_out) + seq![c@]);
                }
            },
            None => {
                proof {
                    assert(spec_entries_start(linesv, lines@.len() as int) =~= Seq::<
                        SpecSshConfigEntry,
                    >::empty());
                }
            },
        }
        proof {
            assert(spec_entries_view(out@) =~= spec_parse_config(contents@));
        }
        out
    }
}

/// Whether any of a block's patterns matches the host.
pub open spec fn spec_entry_matches(e: SpecSshConfigEntry, host: Seq<u8>) -> bool {
    exists|k: int| 0 <= k < e.patterns.len() && spec_glob_match(#[trigger] e.patterns[k], host)
}

/// Whether any of `e`'s patterns matches `host`.
pub fn entry_matches(e: &SshConfigEntry, host: &Vec<u8>) -> (r: bool)
    ensures
        r == spec_entry_matches(e@, host@),
{
    let mut k: usize = 0;
    while k < e.patterns.len()
        invariant
            k <= e.patterns@.len(),
            forall|m: int|
                0 <= m < k ==> !spec_glob_match(#[trigger] e@.patterns[m], host@),
        decreases e.patterns@.len() - k,
    {
        if glob_match(&e.patterns[k], host) {
            assert(e@.patterns[k as int] == e.patterns@[k as int]@);
            assert(spec_entry_matches(e@, host@));
            return true;
        }
        assert(e@.patterns[k as int] == e.patterns@[k as int]@);
        k = k + 1;
    }
    false
}

/// The index of the first block that matches the host, looking from `idx`.
pub open spec fn spec_first_match_from(
    entries: Seq<SpecSshConfigEntry>,
    host: Seq<u8>,
    idx: int,
) -> Option<int>
    decreases entries.len() - idx,
{
    if idx < 0 || idx >= entries.len() {
        None
    } else if spec_entry_matches(entries[idx], host) {
        Some(idx)
    } else {
        spec_first_match_from(entries, host, idx + 1)
    }
}

/// The first value under `key` among a block's options, looking from `idx`.
pub open spec fn spec_find_option_from(
    opts: Seq<(Seq<u8>, Seq<u8>)>,
    key: Seq<u8>,
    idx: int,
) -> Option<Seq<u8>>
    decreases opts.len() - idx,
{
    if idx < 0 || idx >= opts.len() {
        None
    } else if opts[idx].0 == key {
        Some(opts[idx].1)
    } else {
        spec_find_option_from(opts, key, idx + 1)
    }
}

/// The `IdentityFile` of the first matching block, if that block names one:
/// blocks are scanned in file order and the first match wins; a first
/// matching block without the option yields nothing.
pub open spec fn spec_lookup_identity(
    entries: Seq<SpecSshConfigEntry>,
    host: Seq<u8>,
) -> Option<Seq<u8>> {
    match spec_first_match_from(entries, host, 0) {
        None => None,
        Some(i) => spec_find_option_from(entries[i].options, spec_identity_file_keyword(), 0),
    }
}

/// The bytes of `IdentityFile`.
fn identity_file_keyword() -> (v: Vec<u8>)
    ensures
        v@ == spec_identity_file_keyword(),
{
    let mut v: Vec<u8> = Vec::new();
    v.push('I' as u8);
    v.push('d' as u8);
    v.push('e' as u8);
    v.push('n' as u8);
    v.push('t' as u8);
    v.push('i' as u8);
    v.push('t' as u8);
    v.push('y' as u8);
    v.push('F' as u8);
    v.push('i' as u8);
    v.push('l' as u8);
    v.push('e' as u8);
    assert(v@ =~= spec_identity_file_keyword());
    v
}

/// The first value under `key` in a block's options.
fn find_option(opts: &Vec<(Vec<u8>, Vec<u8>)>, key: &Vec<u8>) -> (r: Option<Vec<u8>>)
    ensures
        ({
            let ov = spec_options_view(opts@);
            match r {
                Some(v) => spec_find_option_from(ov, key@, 0) == Some(v@),
                None => spec_find_option_from(ov, key@, 0) is None,
            }
        }),
{
    let ghost ov = spec_options_view(opts@);
    let mut idx: usize = 0;
    while idx < opts.len()
        invariant
            idx <= opts@.len(),
            ov == spec_options_view(opts@),
            spec_find_option_from(ov, key@, 0) == spec_find_option_from(ov, key@, idx as int),
        decreases opts@.len() - idx,
    {
        assert(ov[idx as int] == (opts@[idx as int].0@, opts@[idx as int].1@));
        if crate::bytes::range_eq(&opts[idx].0, 0, opts[idx].0.len(), key) {
            assert(opts@[idx as int].0@.subrange(0, opts@[idx as int].0@.len() as int) =~= opts@[
                idx as int].0@);
            return Some(opts[idx].1.clone());
        }
        assert(opts@[idx as int].0@.subrange(0, opts@[idx as int].0@.len() as int) =~= opts@[
            idx as int].0@);
        idx = idx + 1;
    }
    None
}

/// Looks a host up in a configuration file's bytes: the `IdentityFile`
/// value of the first matching `Host` block, when that block has one.
pub fn find_ssh_key_in_ssh_config(contents: &Vec<u8>, host: &Vec<u8>) -> (r: Option<Vec<u8>>)
    ensures
        match r {
            Some(v) => spec_lookup_identity(spec_parse_config(contents@), host@) == Some(v@),
            None => spec_lookup_identity(spec_parse_config(contents@), host@) is None,
        },
{
    let entries = SSHConfigParser::parse(contents);
    let ghost ev = spec_parse_config(contents@);
    let key = identity_file_keyword();
    let mut idx: usize = 0;
    while idx < entries.len()
        invariant
            idx <= entries@.len(),
            ev == spec_entries_view(entries@),
            ev == spec_parse_config(contents@),
            ev.len() == entries@.len(),
            spec_first_match_from(ev, host@, 0) == spec_first_match_from(ev, host@, idx as int),
            key@ == spec_identity_file_keyword(),
        decreases entries@.len() - idx,
    {
        assert(ev[idx as int] == entries@[idx as int]@);
        if entry_matches(&entries[idx], host) {
            assert(spec_first_match_from(ev, host@, 0) == Some(idx as int));
            assert(spec_options_view(entries@[idx as int].options@) == ev[idx as int].options);
            return find_option(&entries[idx].options, &key);
        }
        idx = idx + 1;
    }
    None
}

/// The credential decision for one host: the configuration lookup first
/// (when the configuration file could be read), then the conventional
/// default key (when one exists). Yields nothing only when both are absent.
pub fn find_ssh_key_for_host(
    host: &Vec<u8>,
    config_contents: Option<&Vec<u8>>,
    default_key: Option<Vec<u8>>,
) -> (r: Option<Vec<u8>>)
    ensures
        ({
            let from_config = match config_contents {
                Some(c) => spec_lookup_identity(spec_parse_config(c@), host@),
                None => None,
            };
            match from_config {
                Some(p) => crate::spec_opt_bytes(r) == Some(p),
                None => crate::spec_opt_bytes(r) == crate::spec_opt_bytes(default_key),
            }
        }),
{
    match config_contents {
        Some(c) => match find_ssh_key_in_ssh_config(c, host) {
            Some(p) => Some(p),
            None => default_key,
        },
        None => default_key,
    }
}

/// Blocks are scanned top-down and the first whose pattern matches wins:
/// when block `i` matches the host and no earlier block does, the lookup
/// reads block `i`'s options and no other's — whatever later blocks, such
/// as one naming the host exactly, would have said.
pub proof fn lemma_first_match_wins(entries: Seq<SpecSshConfigEntry>, host: Seq<u8>, i: int)
    requires
        0 <= i < entries.len(),
        spec_entry_matches(entries[i], host),
        forall|j: int| 0 <= j < i ==> !spec_entry_matches(#[trigger] entries[j], host),
    ensures
        spec_lookup_identity(entries, host) == spec_find_option_from(
            entries[i].options,
            spec_identity_file_keyword(),
            0,
        ),
{
    lemma_first_match_step(entries, host, 0, i);
}

proof fn lemma_first_match_step(entries: Seq<SpecSshConfigEntry>, host: Seq<u8>, from: int, i: int)
    requires
        0 <= from <= i < entries.len(),
        spec_entry_matches(entries[i], host),
        forall|j: int| from <= j < i ==> !spec_entry_matches(#[trigger] entries[j], host),
    ensures
        spec_first_match_from(entries, host, from) == Some(i),
    decreases i - from,
{
    if from < i {
        lemma_first_match_step(entries, host, from + 1, i);
    }
}

} // verus!
