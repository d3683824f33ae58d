//! Fingerprints: one hash per beam over everything that has to invalidate
//! what is remembered of it.
//!
//! Every item is preceded by its length, so that adjacent texts cannot be
//! confused with one, and every section by its name.

use vstd::prelude::*;
use vstd::string::*;
use vstd::bytes::{lemma_auto_spec_u64_to_from_le_bytes, spec_u64_to_le_bytes, u64_to_le_bytes};
use vstd::utf8::encode_utf8;
use crate::loader::pair_views;
use crate::text::views;

verus! {

/// The hash of some bytes, in hexadecimal.
pub uninterp spec fn blake3_hex(bytes: Seq<u8>) -> Seq<char>;

/// A lowercase hexadecimal digit.
pub open spec fn is_hex_digit(c: char) -> bool {
    '0' <= c <= '9' || 'a' <= c <= 'f'
}

/// A text of 64 lowercase hexadecimal digits.
pub open spec fn is_hash(text: Seq<char>) -> bool {
    text.len() == 64 && forall|i: int| 0 <= i < text.len() ==> is_hex_digit(#[trigger] text[i])
}

/// `blake3::hash`, in lowercase hexadecimal: a function of the bytes, 64
/// digits long. Which digits they are is left to that function.
#[verifier::external_body]
fn blake3_hash(bytes: &[u8]) -> (r: String)
    ensures
        r@ == blake3_hex(bytes@),
        is_hash(r@),
{
    blake3::hash(bytes).to_hex().to_string()
}

/// The hash of some bytes, in hexadecimal.
pub fn hash_bytes(bytes: &[u8]) -> (r: String)
    ensures
        r@ == blake3_hex(bytes@),
        is_hash(r@),
{
    blake3_hash(bytes)
}

/// Everything that a beam's fingerprint depends on: the sorted inputs with
/// the hash of each, the rendered commands, directory and environment, the
/// arguments, what each dependency contributes, and the executor.
#[derive(Debug, PartialEq)]
pub struct BeamFacts {
    pub files: Vec<(String, String)>,
    pub commands: Vec<String>,
    pub cwd: String,
    pub env: Vec<(String, String)>,
    pub args: Vec<String>,
    pub needs: Vec<String>,
    pub executor: String,
}

pub struct FactsView {
    pub files: Seq<(Seq<char>, Seq<char>)>,
    pub commands: Seq<Seq<char>>,
    pub cwd: Seq<char>,
    pub env: Seq<(Seq<char>, Seq<char>)>,
    pub args: Seq<Seq<char>>,
    pub needs: Seq<Seq<char>>,
    pub executor: Seq<char>,
}

impl View for BeamFacts {
    type V = FactsView;

    open spec fn view(&self) -> FactsView {
        FactsView {
            files: pair_views(self.files@),
            commands: views(self.commands@),
            cwd: self.cwd@,
            env: pair_views(self.env@),
            args: views(self.args@),
            needs: views(self.needs@),
            executor: self.executor@,
        }
    }
}

/// Pairs as one list.
pub open spec fn flat(pairs: Seq<(Seq<char>, Seq<char>)>) -> Seq<Seq<char>>
    decreases pairs.len(),
{
    if pairs.len() == 0 {
        Seq::empty()
    } else {
        flat(pairs.drop_last()).push(pairs.last().0).push(pairs.last().1)
    }
}

/// What is hashed, item by item.
pub open spec fn items(f: FactsView) -> Seq<Seq<char>> {
    seq!["files"@] + flat(f.files) + seq!["commands"@] + f.commands + seq!["executor"@, f.executor]
        + seq!["cwd"@, f.cwd] + seq!["env"@] + flat(f.env) + seq!["args"@] + f.args + seq!["needs"@]
        + f.needs
}

/// An item as bytes: the length of its UTF-8 form in eight bytes, then that
/// form.
pub open spec fn item_bytes(text: Seq<char>) -> Seq<u8> {
    spec_u64_to_le_bytes(encode_utf8(text).len() as u64) + encode_utf8(text)
}

/// Items as bytes, one after the other.
pub open spec fn framed(list: Seq<Seq<char>>) -> Seq<u8>
    decreases list.len(),
{
    if list.len() == 0 {
        Seq::empty()
    } else {
        item_bytes(list[0]) + framed(list.drop_first())
    }
}

/// The fingerprint of some facts.
pub open spec fn fingerprint_of(f: FactsView) -> Seq<char> {
    blake3_hex(framed(items(f)))
}

proof fn framed_push(list: Seq<Seq<char>>, text: Seq<char>)
    ensures
        framed(list.push(text)) == framed(list) + item_bytes(text),
    decreases list.len(),
{
    let longer = list.push(text);
    if list.len() == 0 {
        assert(longer.drop_first() =~= Seq::<Seq<char>>::empty());
        assert(framed(longer.drop_first()) =~= Seq::<u8>::empty());
        assert(framed(longer) =~= framed(list) + item_bytes(text));
    } else {
        assert(longer.drop_first() =~= list.drop_first().push(text));
        framed_push(list.drop_first(), text);
        assert(framed(longer) =~= framed(list) + item_bytes(text));
    }
}

/// Adds an item to `bytes`.
fn item(bytes: &mut Vec<u8>, text: &str, Ghost(list): Ghost<Seq<Seq<char>>>)
    requires
        old(bytes)@ == framed(list),
    ensures
        final(bytes)@ == framed(list.push(text@)),
{
    let ghost start = bytes@;
    let raw = text.as_bytes();
    let mut length = u64_to_le_bytes(raw.len() as u64);
    bytes.append(&mut length);
    let ghost prefixed = bytes@;
    let mut i: usize = 0;
    while i < raw.len()
        invariant
            i <= raw@.len(),
            bytes@ == prefixed + raw@.take(i as int),
        decreases raw.len() - i,
    {
        bytes.push(raw[i]);
        assert(raw@.take(i as int).push(raw@[i as int]) == raw@.take(i + 1));
        assert(prefixed + raw@.take(i + 1) =~= (prefixed + raw@.take(i as int)).push(
            raw@[i as int],
        ));
        i += 1;
    }
    proof {
        assert(raw@.take(raw@.len() as int) == raw@);
        framed_push(list, text@);
        assert(bytes@ =~= start + item_bytes(text@));
    }
}

fn all_items(bytes: &mut Vec<u8>, texts: &Vec<String>, Ghost(list): Ghost<Seq<Seq<char>>>)
    requires
        old(bytes)@ == framed(list),
    ensures
        final(bytes)@ == framed(list + views(texts@)),
{
    let ghost all = views(texts@);
    let mut i: usize = 0;
    assert(list + all.take(0) =~= list);
    while i < texts.len()
        invariant
            i <= texts@.len(),
            all == views(texts@),
            bytes@ == framed(list + all.take(i as int)),
        decreases texts.len() - i,
    {
        item(bytes, texts[i].as_str(), Ghost(list + all.take(i as int)));
        assert((list + all.take(i as int)).push(all[i as int]) =~= list + all.take(i + 1));
        i += 1;
    }
    assert(all.take(all.len() as int) == all);
}

fn all_pairs(
    bytes: &mut Vec<u8>,
    pairs: &Vec<(String, String)>,
    Ghost(list): Ghost<Seq<Seq<char>>>,
)
    requires
        old(bytes)@ == framed(list),
    ensures
        final(bytes)@ == framed(list + flat(pair_views(pairs@))),
{
    let ghost all = pair_views(pairs@);
    let mut i: usize = 0;
    assert(list + flat(all.take(0)) =~= list);
    while i < pairs.len()
        invariant
            i <= pairs@.len(),
            all == pair_views(pairs@),
            bytes@ == framed(list + flat(all.take(i as int))),
        decreases pairs.len() - i,
    {
        let (a, b) = &pairs[i];
        let ghost before = list + flat(all.take(i as int));
        item(bytes, a.as_str(), Ghost(before));
        item(bytes, b.as_str(), Ghost(before.push(a@)));
        proof {
            assert(all.take(i + 1).drop_last() == all.take(i as int));
            assert(before.push(a@).push(b@) =~= list + flat(all.take(i + 1)));
        }
        i += 1;
    }
    assert(all.take(all.len() as int) == all);
}

/// The fingerprint of `facts`.
pub fn fingerprint(facts: &BeamFacts) -> (r: String)
    ensures
        r@ == fingerprint_of(facts@),
        r@.len() == 64,
{
    let ghost f = facts@;
    let mut bytes: Vec<u8> = Vec::new();
    let ghost l0 = Seq::<Seq<char>>::empty();
    item(&mut bytes, "files", Ghost(l0));
    let ghost l1 = l0.push("files"@);
    all_pairs(&mut bytes, &facts.files, Ghost(l1));
    let ghost l2 = l1 + flat(f.files);
    item(&mut bytes, "commands", Ghost(l2));
    let ghost l3 = l2.push("commands"@);
    all_items(&mut bytes, &facts.commands, Ghost(l3));
    let ghost l4 = l3 + f.commands;
    item(&mut bytes, "executor", Ghost(l4));
    let ghost l5 = l4.push("executor"@);
    item(&mut bytes, facts.executor.as_str(), Ghost(l5));
    let ghost l6 = l5.push(f.executor);
    item(&mut bytes, "cwd", Ghost(l6));
    let ghost l7 = l6.push("cwd"@);
    item(&mut bytes, facts.cwd.as_str(), Ghost(l7));
    let ghost l8 = l7.push(f.cwd);
    item(&mut bytes, "env", Ghost(l8));
    let ghost l9 = l8.push("env"@);
    all_pairs(&mut bytes, &facts.env, Ghost(l9));
    let ghost l10 = l9 + flat(f.env);
    item(&mut bytes, "args", Ghost(l10));
    let ghost l11 = l10.push("args"@);
    all_items(&mut bytes, &facts.args, Ghost(l11));
    let ghost l12 = l11 + f.args;
    item(&mut bytes, "needs", Ghost(l12));
    let ghost l13 = l12.push("needs"@);
    all_items(&mut bytes, &facts.needs, Ghost(l13));
    let ghost l14 = l13 + f.needs;
    proof {
        assert(l1 =~= seq!["files"@]);
        assert(l6 =~= l4 + seq!["executor"@, f.executor]);
        assert(l8 =~= l6 + seq!["cwd"@, f.cwd]);
        assert(l14 =~= items(f));
    }
    blake3_hash(bytes.as_slice())
}

/// What a beam that cannot be remembered contributes to what depends on it:
/// what it runs, where and with what.
pub open spec fn static_facts(
    commands: Seq<Seq<char>>,
    cwd: Seq<char>,
    env: Seq<(Seq<char>, Seq<char>)>,
    args: Seq<Seq<char>>,
    executor: Seq<char>,
) -> FactsView {
    FactsView {
        files: Seq::empty(),
        commands,
        cwd,
        env,
        args,
        needs: Seq::empty(),
        executor,
    }
}

/// The contribution of a beam that cannot be remembered.
pub fn static_contribution(
    commands: Vec<String>,
    cwd: String,
    env: Vec<(String, String)>,
    args: Vec<String>,
    executor: String,
) -> (r: String)
    ensures
        r@ == fingerprint_of(
            static_facts(
                views(commands@),
                cwd@,
                pair_views(env@),
                views(args@),
                executor@,
            ),
        ),
        r@.len() == 64,
{
    let facts = BeamFacts {
        files: Vec::new(),
        commands,
        cwd,
        env,
        args,
        needs: Vec::new(),
        executor,
    };
    proof {
        assert(facts@.files =~= Seq::<(Seq<char>, Seq<char>)>::empty());
        assert(facts@.needs =~= Seq::<Seq<char>>::empty());
    }
    fingerprint(&facts)
}

/// The hash of a file's content, or why it could not be read.
pub fn hash_file(content: Result<Vec<u8>, String>) -> (r: Result<String, String>)
    ensures
        match (content, r) {
            (Ok(bytes), Ok(hash)) => hash@ == blake3_hex(bytes@) && hash@.len() == 64,
            (Err(error), Err(e)) => e == error,
            _ => false,
        },
{
    match content {
        Ok(bytes) => Ok(blake3_hash(bytes.as_slice())),
        Err(error) => Err(error),
    }
}

/// Every item's UTF-8 form has a length that fits in eight bytes.
pub open spec fn lengths_fit(list: Seq<Seq<char>>) -> bool {
    forall|i: int| 0 <= i < list.len() ==> encode_utf8(#[trigger] list[i]).len() <= u64::MAX
}

/// Different lists of items have different bytes: lengths keep adjacent
/// items apart.
pub proof fn framing_keeps_items_apart(a: Seq<Seq<char>>, b: Seq<Seq<char>>)
    requires
        lengths_fit(a),
        lengths_fit(b),
        framed(a) == framed(b),
    ensures
        a == b,
    decreases a.len(),
{
    lemma_auto_spec_u64_to_from_le_bytes();
    if a.len() == 0 {
        if b.len() > 0 {
            assert(spec_u64_to_le_bytes(encode_utf8(b[0]).len() as u64).len() == 8);
            assert(framed(b).len() >= 8);
        }
        assert(a =~= b);
    } else if b.len() == 0 {
        assert(spec_u64_to_le_bytes(encode_utf8(a[0]).len() as u64).len() == 8);
        assert(framed(a).len() >= 8);
    } else {
        let ua = encode_utf8(a[0]);
        let ub = encode_utf8(b[0]);
        let na = spec_u64_to_le_bytes(ua.len() as u64);
        let nb = spec_u64_to_le_bytes(ub.len() as u64);
        let fa = framed(a);
        let fb = framed(b);
        assert(na.len() == 8 && nb.len() == 8);
        assert(fa == (na + ua) + framed(a.drop_first()));
        assert(fb == (nb + ub) + framed(b.drop_first()));
        assert(na =~= fa.take(8));
        assert(nb =~= fb.take(8));
        assert(ua.len() as u64 == ub.len() as u64);
        assert(ua =~= fa.subrange(8, 8 + ua.len() as int));
        assert(ub =~= fb.subrange(8, 8 + ub.len() as int));
        vstd::utf8::encode_utf8_decode_utf8(a[0]);
        vstd::utf8::encode_utf8_decode_utf8(b[0]);
        assert(a[0] == b[0]);
        assert(framed(a.drop_first()) =~= fa.skip(8 + ua.len() as int));
        assert(framed(b.drop_first()) =~= fb.skip(8 + ub.len() as int));
        assert forall|i: int| 0 <= i < a.drop_first().len() implies encode_utf8(
            #[trigger] a.drop_first()[i],
        ).len() <= u64::MAX by {
            assert(a.drop_first()[i] == a[i + 1]);
        }
        assert forall|i: int| 0 <= i < b.drop_first().len() implies encode_utf8(
            #[trigger] b.drop_first()[i],
        ).len() <= u64::MAX by {
            assert(b.drop_first()[i] == b[i + 1]);
        }
        framing_keeps_items_apart(a.drop_first(), b.drop_first());
        assert(a =~= seq![a[0]] + a.drop_first());
        assert(b =~= seq![b[0]] + b.drop_first());
    }
}

proof fn middles_are_equal<T>(before: Seq<T>, x: Seq<T>, y: Seq<T>, after: Seq<T>)
    requires
        before + x + after == before + y + after,
    ensures
        x == y,
{
    let l = before + x + after;
    let r = before + y + after;
    assert(l.len() == r.len());
    assert(x =~= l.subrange(before.len() as int, (before.len() + x.len()) as int));
    assert(y =~= r.subrange(before.len() as int, (before.len() + y.len()) as int));
}

proof fn flat_is_injective(a: Seq<(Seq<char>, Seq<char>)>, b: Seq<(Seq<char>, Seq<char>)>)
    requires
        flat(a) == flat(b),
    ensures
        a == b,
    decreases a.len(),
{
    if a.len() == 0 {
        if b.len() > 0 {
            assert(flat(b).len() >= 2);
        }
        assert(a =~= b);
    } else if b.len() == 0 {
        assert(flat(a).len() >= 2);
    } else {
        let fa = flat(a);
        let fb = flat(b);
        assert(fa.last() == a.last().1 && fb.last() == b.last().1);
        assert(fa.drop_last().last() == a.last().0 && fb.drop_last().last() == b.last().0);
        assert(fa.drop_last().drop_last() =~= flat(a.drop_last()));
        assert(fb.drop_last().drop_last() =~= flat(b.drop_last()));
        flat_is_injective(a.drop_last(), b.drop_last());
        assert(a =~= a.drop_last().push(a.last()));
        assert(b =~= b.drop_last().push(b.last()));
    }
}

proof fn files_count(f: FactsView, g: FactsView)
    requires
        items(f) == items(g),
        g == (FactsView { files: g.files, ..f }),
    ensures
        f.files == g.files,
{
    let before = seq!["files"@];
    let after = seq!["commands"@] + f.commands + seq!["executor"@, f.executor] + seq!["cwd"@, f.cwd] + seq!["env"@] + flat(f.env) + seq!["args"@] + f.args + seq!["needs"@] + f.needs;
    assert(items(f) =~= before + flat(f.files) + after);
    assert(items(g) =~= before + flat(g.files) + after);
    middles_are_equal(before, flat(f.files), flat(g.files), after);
    flat_is_injective(f.files, g.files);
}

proof fn commands_count(f: FactsView, g: FactsView)
    requires
        items(f) == items(g),
        g == (FactsView { commands: g.commands, ..f }),
    ensures
        f.commands == g.commands,
{
    let before = seq!["files"@] + flat(f.files) + seq!["commands"@];
    let after = seq!["executor"@, f.executor] + seq!["cwd"@, f.cwd] + seq!["env"@] + flat(f.env) + seq!["args"@] + f.args + seq!["needs"@] + f.needs;
    assert(items(f) =~= before + f.commands + after);
    assert(items(g) =~= before + g.commands + after);
    middles_are_equal(before, f.commands, g.commands, after);
}

proof fn executor_counts(f: FactsView, g: FactsView)
    requires
        items(f) == items(g),
        g == (FactsView { executor: g.executor, ..f }),
    ensures
        f.executor == g.executor,
{
    let before = seq!["files"@] + flat(f.files) + seq!["commands"@] + f.commands;
    let after = seq!["cwd"@, f.cwd] + seq!["env"@] + flat(f.env) + seq!["args"@] + f.args + seq!["needs"@] + f.needs;
    assert(items(f) =~= before + seq!["executor"@, f.executor] + after);
    assert(items(g) =~= before + seq!["executor"@, g.executor] + after);
    middles_are_equal(before, seq!["executor"@, f.executor], seq!["executor"@, g.executor], after);
    assert(seq!["executor"@, f.executor][1] == seq!["executor"@, g.executor][1]);
}

proof fn cwd_counts(f: FactsView, g: FactsView)
    requires
        items(f) == items(g),
        g == (FactsView { cwd: g.cwd, ..f }),
    ensures
        f.cwd == g.cwd,
{
    let before = seq!["files"@] + flat(f.files) + seq!["commands"@] + f.commands + seq!["executor"@, f.executor];
    let after = seq!["env"@] + flat(f.env) + seq!["args"@] + f.args + seq!["needs"@] + f.needs;
    assert(items(f) =~= before + seq!["cwd"@, f.cwd] + after);
    assert(items(g) =~= before + seq!["cwd"@, g.cwd] + after);
    middles_are_equal(before, seq!["cwd"@, f.cwd], seq!["cwd"@, g.cwd], after);
    assert(seq!["cwd"@, f.cwd][1] == seq!["cwd"@, g.cwd][1]);
}

proof fn env_counts(f: FactsView, g: FactsView)
    requires
        items(f) == items(g),
        g == (FactsView { env: g.env, ..f }),
    ensures
        f.env == g.env,
{
    let before = seq!["files"@] + flat(f.files) + seq!["commands"@] + f.commands + seq!["executor"@, f.executor] + seq!["cwd"@, f.cwd] + seq!["env"@];
    let after = seq!["args"@] + f.args + seq!["needs"@] + f.needs;
    assert(items(f) =~= before + flat(f.env) + after);
    assert(items(g) =~= before + flat(g.env) + after);
    middles_are_equal(before, flat(f.env), flat(g.env), after);
    flat_is_injective(f.env, g.env);
}

proof fn args_count(f: FactsView, g: FactsView)
    requires
        items(f) == items(g),
        g == (FactsView { args: g.args, ..f }),
    ensures
        f.args == g.args,
{
    let before = seq!["files"@] + flat(f.files) + seq!["commands"@] + f.commands + seq!["executor"@, f.executor] + seq!["cwd"@, f.cwd] + seq!["env"@] + flat(f.env) + seq!["args"@];
    let after = seq!["needs"@] + f.needs;
    assert(items(f) =~= before + f.args + after);
    assert(items(g) =~= before + g.args + after);
    middles_are_equal(before, f.args, g.args, after);
}

proof fn needs_count(f: FactsView, g: FactsView)
    requires
        items(f) == items(g),
        g == (FactsView { needs: g.needs, ..f }),
    ensures
        f.needs == g.needs,
{
    let before = seq!["files"@] + flat(f.files) + seq!["commands"@] + f.commands + seq!["executor"@, f.executor] + seq!["cwd"@, f.cwd] + seq!["env"@] + flat(f.env) + seq!["args"@] + f.args + seq!["needs"@];
    let after = Seq::<Seq<char>>::empty();
    assert(items(f) =~= before + f.needs + after);
    assert(items(g) =~= before + g.needs + after);
    middles_are_equal(before, f.needs, g.needs, after);
}

/// Two different collections of facts that differ in one field.
pub open spec fn differ_in_one(f: FactsView, g: FactsView) -> bool {
    &&& f != g
    &&& {
        ||| g == (FactsView { files: g.files, ..f })
        ||| g == (FactsView { commands: g.commands, ..f })
        ||| g == (FactsView { executor: g.executor, ..f })
        ||| g == (FactsView { cwd: g.cwd, ..f })
        ||| g == (FactsView { env: g.env, ..f })
        ||| g == (FactsView { args: g.args, ..f })
        ||| g == (FactsView { needs: g.needs, ..f })
    }
}

/// Every field counts: facts that differ in one field have different bytes.
pub proof fn every_field_counts(f: FactsView, g: FactsView)
    requires
        lengths_fit(items(f)),
        lengths_fit(items(g)),
        framed(items(f)) == framed(items(g)),
    ensures
        g == (FactsView { files: g.files, ..f }) ==> f.files == g.files,
        g == (FactsView { commands: g.commands, ..f }) ==> f.commands == g.commands,
        g == (FactsView { executor: g.executor, ..f }) ==> f.executor == g.executor,
        g == (FactsView { cwd: g.cwd, ..f }) ==> f.cwd == g.cwd,
        g == (FactsView { env: g.env, ..f }) ==> f.env == g.env,
        g == (FactsView { args: g.args, ..f }) ==> f.args == g.args,
        g == (FactsView { needs: g.needs, ..f }) ==> f.needs == g.needs,
{
    framing_keeps_items_apart(items(f), items(g));
    if g == (FactsView { files: g.files, ..f }) {
        files_count(f, g);
    }
    if g == (FactsView { commands: g.commands, ..f }) {
        commands_count(f, g);
    }
    if g == (FactsView { executor: g.executor, ..f }) {
        executor_counts(f, g);
    }
    if g == (FactsView { cwd: g.cwd, ..f }) {
        cwd_counts(f, g);
    }
    if g == (FactsView { env: g.env, ..f }) {
        env_counts(f, g);
    }
    if g == (FactsView { args: g.args, ..f }) {
        args_count(f, g);
    }
    if g == (FactsView { needs: g.needs, ..f }) {
        needs_count(f, g);
    }
}

} // verus!
