use vstd::prelude::*;
use crate::programs::shell::{join_slash, joined_path, normalized_path, resolve_pieces, split_slash, step_into};

verus! {

/// A name that a resolved path can hold: not empty, not `.` or `..`, and
/// free of slashes.
pub open spec fn clean_name(n: Seq<char>) -> bool {
    &&& n.len() > 0
    &&& n != seq!['.']
    &&& n != seq!['.', '.']
    &&& !n.contains('/')
}

proof fn lemma_split_pieces_have_no_slash(s: Seq<char>)
    ensures
        split_slash(s).len() > 0,
        forall|i: int| 0 <= i < split_slash(s).len() ==> !(#[trigger] split_slash(s)[i]).contains('/'),
    decreases s.len(),
{
    if s.len() > 0 {
        let pieces = split_slash(s.drop_last());
        lemma_split_pieces_have_no_slash(s.drop_last());
        if s.last() == '/' {
            assert(Seq::<char>::empty().contains('/') == false);
            assert forall|i: int| 0 <= i < split_slash(s).len() implies !(#[trigger] split_slash(s)[i]).contains('/') by {
                if i < pieces.len() {
                    assert(split_slash(s)[i] == pieces[i]);
                } else {
                    assert(split_slash(s)[i] =~= Seq::<char>::empty());
                }
            }
        } else {
            let last = pieces.last().push(s.last());
            assert(!last.contains('/')) by {
                if last.contains('/') {
                    let j = choose|j: int| 0 <= j < last.len() && last[j] == '/';
                    if j < pieces.last().len() {
                        assert(pieces.last()[j] == '/');
                        assert(pieces[pieces.len() - 1].contains('/'));
                    }
                }
            }
            assert forall|i: int| 0 <= i < split_slash(s).len() implies !(#[trigger] split_slash(s)[i]).contains('/') by {
                if i < pieces.len() - 1 {
                    assert(split_slash(s)[i] == pieces[i]);
                }
            }
        }
    }
}

proof fn lemma_resolved_names_are_clean(pieces: Seq<Seq<char>>)
    requires
        forall|i: int| 0 <= i < pieces.len() ==> !(#[trigger] pieces[i]).contains('/'),
    ensures
        forall|i: int| 0 <= i < resolve_pieces(pieces).len() ==> clean_name(#[trigger] resolve_pieces(pieces)[i]),
    decreases pieces.len(),
{
    if pieces.len() > 0 {
        let init = pieces.drop_last();
        assert forall|i: int| 0 <= i < init.len() implies !(#[trigger] init[i]).contains('/') by {
            assert(init[i] == pieces[i]);
        }
        lemma_resolved_names_are_clean(init);
        let names = resolve_pieces(init);
        let piece = pieces.last();
        assert(!pieces[pieces.len() - 1].contains('/'));
        assert forall|i: int| 0 <= i < resolve_pieces(pieces).len() implies clean_name(#[trigger] resolve_pieces(pieces)[i]) by {
            if piece.len() == 0 || piece == seq!['.'] {
            } else if piece == seq!['.', '.'] {
                if names.len() > 0 {
                    assert(resolve_pieces(pieces)[i] == names[i]);
                }
            } else {
                if i < names.len() {
                    assert(resolve_pieces(pieces)[i] == names[i]);
                }
            }
        }
    }
}

proof fn lemma_split_after_slash(x: Seq<char>, w: Seq<char>)
    requires
        !w.contains('/'),
    ensures
        split_slash(x + seq!['/'] + w) == split_slash(x).push(w),
    decreases w.len(),
{
    let s = x + seq!['/'] + w;
    if w.len() == 0 {
        assert(w =~= Seq::<char>::empty());
        assert(s =~= x.push('/'));
        assert(s.drop_last() =~= x);
        assert(s.last() == '/');
        assert(split_slash(s) == split_slash(s.drop_last()).push(Seq::empty()));
    } else {
        let w0 = w.drop_last();
        let c = w.last();
        assert(!w0.contains('/')) by {
            if w0.contains('/') {
                let j = choose|j: int| 0 <= j < w0.len() && w0[j] == '/';
                assert(w[j] == '/');
            }
        }
        assert(c != '/') by {
            assert(w[w.len() - 1] == c);
        }
        lemma_split_after_slash(x, w0);
        assert(s.drop_last() =~= x + seq!['/'] + w0);
        assert(s.last() == c);
        let pieces = split_slash(x).push(w0);
        assert(split_slash(s.drop_last()) == pieces);
        assert(split_slash(s) == pieces.update(pieces.len() - 1, pieces.last().push(c)));
        assert(pieces.last() == w0);
        assert(w0.push(c) =~= w);
        assert(pieces.update(pieces.len() - 1, pieces.last().push(c)) =~= split_slash(x).push(w));
    }
}

proof fn lemma_split_rooted_join(names: Seq<Seq<char>>)
    requires
        names.len() > 0,
        forall|i: int| 0 <= i < names.len() ==> clean_name(#[trigger] names[i]),
    ensures
        split_slash(seq!['/'] + join_slash(names)) == seq![Seq::<char>::empty()] + names,
    decreases names.len(),
{
    let last = names.last();
    assert(clean_name(names[names.len() - 1]));
    if names.len() == 1 {
        lemma_split_after_slash(Seq::empty(), last);
        assert(seq!['/'] + join_slash(names) =~= Seq::<char>::empty() + seq!['/'] + last);
        assert(split_slash(Seq::<char>::empty()) =~= seq![Seq::<char>::empty()]);
        assert(seq![Seq::<char>::empty()].push(last) =~= seq![Seq::<char>::empty()] + names);
    } else {
        let init = names.drop_last();
        assert forall|i: int| 0 <= i < init.len() implies clean_name(#[trigger] init[i]) by {
            assert(init[i] == names[i]);
        }
        lemma_split_rooted_join(init);
        let x = seq!['/'] + join_slash(init);
        assert(seq!['/'] + join_slash(names) =~= x + seq!['/'] + last);
        lemma_split_after_slash(x, last);
        assert((seq![Seq::<char>::empty()] + init).push(last) =~= seq![Seq::<char>::empty()] + names);
    }
}

proof fn lemma_resolve_clean(names: Seq<Seq<char>>)
    requires
        forall|i: int| 0 <= i < names.len() ==> clean_name(#[trigger] names[i]),
    ensures
        resolve_pieces(seq![Seq::<char>::empty()] + names) == names,
    decreases names.len(),
{
    let all = seq![Seq::<char>::empty()] + names;
    if names.len() == 0 {
        assert(all.drop_last() =~= Seq::<Seq<char>>::empty());
        assert(all.last() =~= Seq::<char>::empty());
        assert(resolve_pieces(all.drop_last()) == Seq::<Seq<char>>::empty());
        assert(resolve_pieces(all) == step_into(Seq::<Seq<char>>::empty(), Seq::<char>::empty()));
        assert(resolve_pieces(all) =~= names);
    } else {
        let init = names.drop_last();
        assert forall|i: int| 0 <= i < init.len() implies clean_name(#[trigger] init[i]) by {
            assert(init[i] == names[i]);
        }
        lemma_resolve_clean(init);
        assert(all.drop_last() =~= seq![Seq::<char>::empty()] + init);
        assert(all.last() == names.last());
        assert(clean_name(names[names.len() - 1]));
        assert(resolve_pieces(all) == step_into(resolve_pieces(all.drop_last()), all.last()));
        assert(step_into(init, names.last()) == init.push(names.last()));
        assert(init.push(names.last()) =~= names);
    }
}

/// A resolved path is absolute, and resolving it again, from any directory,
/// gives it back unchanged.
pub proof fn resolving_is_idempotent(wd: Seq<char>, input: Seq<char>, other_wd: Seq<char>)
    ensures
        normalized_path(wd, input)[0] == '/',
        normalized_path(other_wd, normalized_path(wd, input)) == normalized_path(wd, input),
{
    let path = normalized_path(wd, input);
    let pieces = split_slash(joined_path(wd, input));
    lemma_split_pieces_have_no_slash(joined_path(wd, input));
    lemma_resolved_names_are_clean(pieces);
    let names = resolve_pieces(pieces);
    assert(path[0] == '/');
    assert(joined_path(other_wd, path) == path);
    if names.len() == 0 {
        assert(path =~= seq!['/']);
        assert(path =~= Seq::<char>::empty() + seq!['/'] + Seq::<char>::empty());
        lemma_split_after_slash(Seq::empty(), Seq::empty());
        assert(split_slash(Seq::<char>::empty()) =~= seq![Seq::<char>::empty()]);
        lemma_resolve_clean(seq![Seq::<char>::empty()].drop_first());
        assert(seq![Seq::<char>::empty()].push(Seq::<char>::empty()) =~= seq![Seq::<char>::empty()] + seq![Seq::<char>::empty()]);
        let two = seq![Seq::<char>::empty(), Seq::<char>::empty()];
        assert(two.drop_last() =~= seq![Seq::<char>::empty()]);
        assert(seq![Seq::<char>::empty()].drop_last() =~= Seq::<Seq<char>>::empty());
        assert(resolve_pieces(two) =~= Seq::<Seq<char>>::empty());
        assert(split_slash(path) =~~= two);
        assert(join_slash(Seq::<Seq<char>>::empty()) =~= Seq::<char>::empty());
        assert(normalized_path(other_wd, path) =~= seq!['/']);
    } else {
        assert(path == seq!['/'] + join_slash(names));
        lemma_split_rooted_join(names);
        lemma_resolve_clean(names);
        assert(split_slash(joined_path(other_wd, path)) == seq![Seq::<char>::empty()] + names);
        assert(resolve_pieces(split_slash(joined_path(other_wd, path))) == names);
    }
}

/// An absolute path names the same place from every working directory.
pub proof fn absolute_paths_ignore_working_directory(wd: Seq<char>, other_wd: Seq<char>, input: Seq<char>)
    requires
        input.len() > 0,
        input[0] == '/',
    ensures
        normalized_path(wd, input) == normalized_path(other_wd, input),
{
}

/// `..` from the root stays at the root.
pub proof fn parent_of_root_is_root(wd: Seq<char>)
    ensures
        normalized_path(wd, seq!['/', '.', '.']) == seq!['/'],
{
    let p = seq!['/', '.', '.'];
    assert(joined_path(wd, p) == p);
    reveal_with_fuel(split_slash, 4);
    assert(p.drop_last() =~= seq!['/', '.']);
    assert(seq!['/', '.'].drop_last() =~= seq!['/']);
    assert(seq!['/'].drop_last() =~= Seq::<char>::empty());
    let pieces = seq![Seq::<char>::empty(), seq!['.', '.']];
    assert(split_slash(Seq::<char>::empty()) =~= seq![Seq::<char>::empty()]);
    assert(seq!['/'].last() == '/');
    assert(split_slash(seq!['/']) =~= seq![Seq::<char>::empty(), Seq::<char>::empty()]);
    assert(seq!['/', '.'].last() == '.');
    let one = seq![Seq::<char>::empty(), Seq::<char>::empty()];
    assert(one.update(1, one.last().push('.')) =~= seq![Seq::<char>::empty(), seq!['.']]);
    assert(split_slash(seq!['/', '.']) =~= seq![Seq::<char>::empty(), seq!['.']]);
    assert(p.last() == '.');
    let two = seq![Seq::<char>::empty(), seq!['.']];
    assert(two.update(1, two.last().push('.')) =~~= pieces);
    assert(split_slash(p) =~= pieces);
    reveal_with_fuel(resolve_pieces, 3);
    assert(pieces.drop_last() =~= seq![Seq::<char>::empty()]);
    assert(seq![Seq::<char>::empty()].drop_last() =~= Seq::<Seq<char>>::empty());
    assert(resolve_pieces(pieces) =~= Seq::<Seq<char>>::empty());
    assert(normalized_path(wd, p) =~= seq!['/']);
}

proof fn lemma_split_at_slash(x: Seq<char>, y: Seq<char>)
    ensures
        split_slash(x + seq!['/'] + y) == split_slash(x) + split_slash(y),
    decreases y.len(),
{
    let s = x + seq!['/'] + y;
    if y.len() == 0 {
        assert(s.drop_last() =~= x);
        assert(s.last() == '/');
        assert(split_slash(y) =~= seq![Seq::<char>::empty()]);
        assert(split_slash(x).push(Seq::empty()) =~= split_slash(x) + split_slash(y));
    } else {
        let y0 = y.drop_last();
        let c = y.last();
        lemma_split_at_slash(x, y0);
        lemma_split_pieces_have_no_slash(y0);
        assert(s.drop_last() =~= x + seq!['/'] + y0);
        assert(s.last() == c);
        assert(y.drop_last() == y0);
        let a = split_slash(x);
        let b = split_slash(y0);
        if c == '/' {
            assert((a + b).push(Seq::empty()) =~= a + b.push(Seq::empty()));
        } else {
            assert((a + b).update((a + b).len() - 1, (a + b).last().push(c)) =~= a + b.update(b.len() - 1, b.last().push(c)));
        }
    }
}

proof fn lemma_empty_piece_changes_nothing(a: Seq<Seq<char>>, b: Seq<Seq<char>>)
    ensures
        resolve_pieces(a + seq![Seq::<char>::empty()] + b) == resolve_pieces(a + b),
    decreases b.len(),
{
    let all = a + seq![Seq::<char>::empty()] + b;
    if b.len() == 0 {
        assert(all.drop_last() =~= a);
        assert(all.last() == Seq::<char>::empty());
        assert(a + b =~= a);
    } else {
        let b0 = b.drop_last();
        lemma_empty_piece_changes_nothing(a, b0);
        assert(all.drop_last() =~= a + seq![Seq::<char>::empty()] + b0);
        assert(all.last() == b.last());
        assert((a + b).drop_last() =~= a + b0);
        assert((a + b).last() == b.last());
    }
}

proof fn lemma_split_rooted(x: Seq<char>)
    ensures
        split_slash(seq!['/'] + x) == seq![Seq::<char>::empty()] + split_slash(x),
{
    lemma_split_at_slash(Seq::empty(), x);
    assert(Seq::<char>::empty() + seq!['/'] + x =~= seq!['/'] + x);
    assert(split_slash(Seq::<char>::empty()) =~= seq![Seq::<char>::empty()]);
}

/// Every name of a resolved path is a real name: the path is the root, or
/// after its leading slash it holds only names that are not empty, not `.`
/// or `..`, and hold no slash.
pub proof fn resolved_names_are_clean(wd: Seq<char>, input: Seq<char>)
    ensures
        ({
            let pieces = split_slash(normalized_path(wd, input));
            ||| normalized_path(wd, input) == seq!['/']
            ||| {
                &&& pieces[0] == Seq::<char>::empty()
                &&& forall|i: int| 1 <= i < pieces.len() ==> clean_name(#[trigger] pieces[i])
            }
        }),
{
    let pieces = split_slash(joined_path(wd, input));
    lemma_split_pieces_have_no_slash(joined_path(wd, input));
    lemma_resolved_names_are_clean(pieces);
    let names = resolve_pieces(pieces);
    if names.len() == 0 {
        assert(join_slash(names) =~= Seq::<char>::empty());
        assert(normalized_path(wd, input) =~= seq!['/']);
    } else {
        lemma_split_rooted_join(names);
        let out = split_slash(normalized_path(wd, input));
        assert(out == seq![Seq::<char>::empty()] + names);
        assert forall|i: int| 1 <= i < out.len() implies clean_name(#[trigger] out[i]) by {
            assert(out[i] == names[i - 1]);
        }
    }
}

/// A relative path names what the working directory, a slash and the path
/// name from the root.
pub proof fn relative_paths_extend_working_directory(wd: Seq<char>, input: Seq<char>)
    requires
        !(input.len() > 0 && input[0] == '/'),
    ensures
        normalized_path(wd, input) == normalized_path(seq!['/'], wd + seq!['/'] + input),
{
    let e = Seq::<char>::empty();
    let full = wd + seq!['/'] + input;
    // The pieces of `wd/input`, with at most one more empty piece than those
    // of the path joined from `wd`, resolve alike.
    lemma_split_at_slash(wd, input);
    assert(resolve_pieces(split_slash(joined_path(wd, input))) == resolve_pieces(split_slash(full))) by {
        if wd.len() > 0 && wd.last() == '/' {
            let w0 = wd.drop_last();
            assert(wd =~= w0 + seq!['/'] + e);
            lemma_split_at_slash(w0, e);
            assert(joined_path(wd, input) =~= w0 + seq!['/'] + input);
            lemma_split_at_slash(w0, input);
            assert(split_slash(e) =~= seq![e]);
            assert(split_slash(full) =~= split_slash(w0) + seq![e] + split_slash(input));
            lemma_empty_piece_changes_nothing(split_slash(w0), split_slash(input));
        } else {
            assert(joined_path(wd, input) == full);
        }
    }
    if full[0] == '/' {
        assert(joined_path(seq!['/'], full) == full);
    } else {
        assert(joined_path(seq!['/'], full) == seq!['/'] + full);
        lemma_split_rooted(full);
        lemma_empty_piece_changes_nothing(Seq::empty(), split_slash(full));
        assert(Seq::<Seq<char>>::empty() + seq![e] + split_slash(full) =~= seq![e] + split_slash(full));
        assert(Seq::<Seq<char>>::empty() + split_slash(full) =~= split_slash(full));
    }
}

} // verus!
