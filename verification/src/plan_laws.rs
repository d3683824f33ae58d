//! What a run's plan keeps apart.

use vstd::prelude::*;
use crate::model::{ExecutorView, OptionView};
use crate::plan::{executor_word, labelled, labelled_list, option_texts, options_texts};
use crate::store::decimal_tells_numbers_apart;
use crate::text::decimal;

verus! {

proof fn decimal_has_no_colon(n: nat)
    ensures
        decimal(n).len() >= 1,
        forall|i: int| 0 <= i < decimal(n).len() ==> #[trigger] decimal(n)[i] != ':',
    decreases n,
{
    if n >= 10 {
        decimal_has_no_colon(n / 10);
    }
}

/// A text's label ends where it ends: nothing else begins with it.
proof fn labels_end(a: Seq<char>, x: Seq<char>, b: Seq<char>, y: Seq<char>)
    requires
        labelled(a) + x == labelled(b) + y,
    ensures
        a == b,
        x == y,
{
    reveal_strlit(":");
    decimal_has_no_colon(a.len());
    decimal_has_no_colon(b.len());
    let s = labelled(a) + x;
    let t = labelled(b) + y;
    let m = decimal(a.len()).len() as int;
    let n = decimal(b.len()).len() as int;
    assert(s[m] == ':');
    assert(t[n] == ':');
    if m < n {
        assert(t[m] == decimal(b.len())[m]);
    }
    if n < m {
        assert(s[n] == decimal(a.len())[n]);
    }
    assert(decimal(a.len()) =~= s.take(m));
    assert(decimal(b.len()) =~= t.take(n));
    decimal_tells_numbers_apart(a.len(), b.len());
    assert(a =~= s.subrange(m + 1, m + 1 + a.len()));
    assert(b =~= t.subrange(n + 1, n + 1 + b.len()));
    assert(x =~= s.skip(m + 1 + a.len()));
    assert(y =~= t.skip(n + 1 + b.len()));
}

proof fn labelled_is_not_empty(a: Seq<char>)
    ensures
        labelled(a).len() > 0,
{
    decimal_has_no_colon(a.len());
}

/// Labelled texts put one after the other stay apart.
pub proof fn labelled_texts_stay_apart(a: Seq<Seq<char>>, b: Seq<Seq<char>>)
    requires
        labelled_list(a) == labelled_list(b),
    ensures
        a == b,
    decreases a.len(),
{
    if a.len() == 0 {
        if b.len() > 0 {
            labelled_is_not_empty(b[0]);
            assert(labelled_list(b).len() > 0);
        }
        assert(a =~= b);
    } else if b.len() == 0 {
        labelled_is_not_empty(a[0]);
        assert(labelled_list(a).len() > 0);
    } else {
        labels_end(a[0], labelled_list(a.drop_first()), b[0], labelled_list(b.drop_first()));
        labelled_texts_stay_apart(a.drop_first(), b.drop_first());
        assert(a =~= seq![a[0]] + a.drop_first());
        assert(b =~= seq![b[0]] + b.drop_first());
    }
}

/// Options from the front.
proof fn options_from_front(options: Seq<(Seq<char>, OptionView)>)
    requires
        options.len() > 0,
    ensures
        options_texts(options) == seq![options[0].0] + option_texts(options[0].1) + options_texts(
            options.drop_first(),
        ),
    decreases options.len(),
{
    let front = options.drop_last();
    if options.len() == 1 {
        assert(front =~= Seq::<(Seq<char>, OptionView)>::empty());
        assert(options.drop_first() =~= Seq::<(Seq<char>, OptionView)>::empty());
        assert(options_texts(front) =~= Seq::<Seq<char>>::empty());
        assert(options_texts(options.drop_first()) =~= Seq::<Seq<char>>::empty());
        assert(options_texts(options) =~= seq![options[0].0] + option_texts(options[0].1)
            + options_texts(options.drop_first()));
    } else {
        options_from_front(front);
        assert(front.drop_first() =~= options.drop_first().drop_last());
        assert(options.drop_first().last() == options.last());
        let last = seq![options.last().0] + option_texts(options.last().1);
        assert(options_texts(options) =~= options_texts(front) + last);
        assert(options_texts(options.drop_first()) =~= options_texts(front.drop_first()) + last);
        assert(options_texts(options) =~= seq![options[0].0] + option_texts(options[0].1)
            + options_texts(options.drop_first()));
    }
}

/// Values that begin with one word are of one kind.
proof fn option_kinds_differ(a: OptionView, b: OptionView)
    requires
        option_texts(a)[0] == option_texts(b)[0],
    ensures
        a is Str <==> b is Str,
        a is Bool <==> b is Bool,
        a is List <==> b is List,
{
    reveal_strlit("s");
    reveal_strlit("b");
    reveal_strlit("l");
    assert("s"@[0] == 's' && "b"@[0] == 'b' && "l"@[0] == 'l');
}

proof fn bools_differ(a: bool, b: bool)
    requires
        option_texts(OptionView::Bool(a))[1] == option_texts(OptionView::Bool(b))[1],
    ensures
        a == b,
{
    reveal_strlit("true");
    reveal_strlit("false");
    assert("true"@.len() == 4 && "false"@.len() == 5);
}

proof fn option_ends(a: OptionView, x: Seq<Seq<char>>, b: OptionView, y: Seq<Seq<char>>)
    requires
        option_texts(a) + x == option_texts(b) + y,
    ensures
        a == b,
        x == y,
{
    let s = option_texts(a) + x;
    let t = option_texts(b) + y;
    assert(s[0] == option_texts(a)[0] && t[0] == option_texts(b)[0]);
    assert(s[1] == option_texts(a)[1] && t[1] == option_texts(b)[1]);
    option_kinds_differ(a, b);
    match a {
        OptionView::Str(_) => {},
        OptionView::Bool(p) => {
            bools_differ(p, b->Bool_0);
        },
        OptionView::List(l) => {
            let m = b->List_0;
            decimal_tells_numbers_apart(l.len(), m.len());
            assert(l =~= s.subrange(2, 2int + l.len()));
            assert(m =~= t.subrange(2, 2int + m.len()));
        },
    }
    assert(x =~= s.skip(option_texts(a).len() as int));
    assert(y =~= t.skip(option_texts(b).len() as int));
}

proof fn firsts_agree(k: Seq<char>, x: Seq<Seq<char>>, l: Seq<char>, y: Seq<Seq<char>>)
    requires
        seq![k] + x == seq![l] + y,
    ensures
        k == l,
        x == y,
{
    let s = seq![k] + x;
    let t = seq![l] + y;
    assert(s[0] == k && t[0] == l);
    assert(x =~= s.drop_first());
    assert(y =~= t.drop_first());
}

proof fn regrouped(k: Seq<char>, x: Seq<Seq<char>>, y: Seq<Seq<char>>)
    ensures
        seq![k] + x + y == seq![k] + (x + y),
{
    assert(seq![k] + x + y =~= seq![k] + (x + y));
}

proof fn same_pieces(a: Seq<(Seq<char>, OptionView)>, b: Seq<(Seq<char>, OptionView)>)
    requires
        a.len() > 0,
        b.len() > 0,
        a[0] == b[0],
        a.drop_first() == b.drop_first(),
    ensures
        a == b,
{
    assert(a =~= seq![a[0]] + a.drop_first());
    assert(b =~= seq![b[0]] + b.drop_first());
}

proof fn options_not_empty(a: Seq<(Seq<char>, OptionView)>)
    requires
        a.len() > 0,
    ensures
        options_texts(a).len() > 0,
{
    options_from_front(a);
}

proof fn options_stay_apart(a: Seq<(Seq<char>, OptionView)>, b: Seq<(Seq<char>, OptionView)>)
    requires
        options_texts(a) == options_texts(b),
    ensures
        a == b,
    decreases a.len(),
{
    if a.len() == 0 || b.len() == 0 {
        if a.len() > 0 {
            options_not_empty(a);
        }
        if b.len() > 0 {
            options_not_empty(b);
        }
        assert(a =~= b);
    } else {
        options_from_front(a);
        options_from_front(b);
        let x = options_texts(a.drop_first());
        let y = options_texts(b.drop_first());
        regrouped(a[0].0, option_texts(a[0].1), x);
        regrouped(b[0].0, option_texts(b[0].1), y);
        firsts_agree(a[0].0, option_texts(a[0].1) + x, b[0].0, option_texts(b[0].1) + y);
        option_ends(a[0].1, x, b[0].1, y);
        options_stay_apart(a.drop_first(), b.drop_first());
        same_pieces(a, b);
    }
}

proof fn docker_is_told(a: ExecutorView, b: ExecutorView)
    requires
        a is Docker,
        b is Docker,
        executor_word(a) == executor_word(b),
    ensures
        a == b,
{
    if let ExecutorView::Docker { image: i, volumes: v, workdir: w } = a {
        if let ExecutorView::Docker { image: j, volumes: u, workdir: z } = b {
            let s = seq![i, decimal(v.len())] + v + match w {
                Some(d) => seq![d],
                None => Seq::empty(),
            };
            let t = seq![j, decimal(u.len())] + u + match z {
                Some(d) => seq![d],
                None => Seq::empty(),
            };
            let n = "docker "@.len() as int;
            assert(labelled_list(s) =~= executor_word(a).skip(n));
            assert(labelled_list(t) =~= executor_word(b).skip(n));
            labelled_texts_stay_apart(s, t);
            assert(s[0] == i && t[0] == j);
            assert(s[1] == decimal(v.len()) && t[1] == decimal(u.len()));
            decimal_tells_numbers_apart(v.len(), u.len());
            assert(v =~= s.subrange(2, 2int + v.len()));
            assert(u =~= t.subrange(2, 2int + u.len()));
            assert(s.len() == t.len());
            if w is Some {
                assert(s[2int + v.len()] == w->Some_0);
                assert(t[2int + u.len()] == z->Some_0);
            }
        }
    }
}

proof fn plugin_is_told(a: ExecutorView, b: ExecutorView)
    requires
        a is Plugin,
        b is Plugin,
        executor_word(a) == executor_word(b),
    ensures
        a == b,
{
    if let ExecutorView::Plugin { name: m, options: o } = a {
        if let ExecutorView::Plugin { name: n, options: p } = b {
            let s = seq![m] + options_texts(o);
            let t = seq![n] + options_texts(p);
            let k = "plugin "@.len() as int;
            assert(labelled_list(s) =~= executor_word(a).skip(k));
            assert(labelled_list(t) =~= executor_word(b).skip(k));
            labelled_texts_stay_apart(s, t);
            assert(s[0] == m && t[0] == n);
            assert(options_texts(o) =~= s.drop_first());
            assert(options_texts(p) =~= t.drop_first());
            options_stay_apart(o, p);
        }
    }
}

spec fn initial(kind: ExecutorView) -> char {
    match kind {
        ExecutorView::Shell => 'e',
        ExecutorView::SystemShell => 's',
        ExecutorView::Docker { .. } => 'd',
        ExecutorView::Plugin { .. } => 'p',
    }
}

proof fn label_begins(kind: ExecutorView)
    ensures
        executor_word(kind)[0] == initial(kind),
{
    reveal_strlit("embedded");
    reveal_strlit("system");
    reveal_strlit("docker ");
    reveal_strlit("plugin ");
    assert("embedded"@[0] == 'e' && "system"@[0] == 's' && "docker "@[0] == 'd' && "plugin "@[0]
        == 'p');
}

/// A beam's executor is told by its label: changing anything about it changes
/// what is remembered for the beam.
pub proof fn an_executor_is_told_by_its_label(a: ExecutorView, b: ExecutorView)
    requires
        executor_word(a) == executor_word(b),
    ensures
        a == b,
{
    label_begins(a);
    label_begins(b);
    assert(initial(a) == initial(b));
    if a is Docker {
        docker_is_told(a, b);
    } else if a is Plugin {
        plugin_is_told(a, b);
    }
}

} // verus!
