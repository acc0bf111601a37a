//! What a path stands for, step by step.

use vstd::prelude::*;

use crate::path_util::{
    expanded, idle_end, is_absolute, last_name, lemma_pieces, lemma_pieces_extend, name_start,
    normalized, parent_path, path_joined, pieces, pruned, rendered, settled, tail_length,
};
use crate::text::{begins, joined};

verus! {

/// A path that is a tilde, or begins with one and a separator, is below the home directory, where
/// there is one; any other path stays as it is.
pub proof fn a_tilde_is_the_home(path: Seq<char>, home: Seq<char>)
    ensures
        expanded(path, None) == path,
        expanded(seq!['~'], Some(home)) == home,
        expanded(seq!['~', '/'] + path, Some(home)) == home + seq!['/'] + path,
        path.len() == 0 || path[0] != '~' || (path.len() > 1 && path[1] != '/') ==> expanded(
            path,
            Some(home),
        ) == path,
{
    reveal_strlit("~");
    reveal_strlit("~/");
    reveal_strlit("/");
    assert("~"@ =~= seq!['~']);
    assert("/"@ =~= seq!['/']);
    let full = seq!['~', '/'] + path;
    assert(full.take(2) =~= "~/"@);
    assert(full.skip(2) =~= path);
    assert(full[1] == '/');
    assert(full != "~"@) by {
        assert(full.len() > "~"@.len());
    }
    assert(!begins(seq!['~'], "~/"@));
    if path.len() == 0 || path[0] != '~' || (path.len() > 1 && path[1] != '/') {
        if begins(path, "~/"@) {
            assert(path.take(2)[0] == path[0] && path.take(2)[1] == path[1]);
        }
        if path == "~"@ {
            assert(path.len() == 1 && path[0] == '~');
        }
    }
}

/// A path that starts at the root replaces what it is joined to; any other follows it, with one
/// separator between.
pub proof fn a_joined_path_follows(base: Seq<char>, rel: Seq<char>)
    ensures
        path_joined(base, seq!['/'] + rel) == seq!['/'] + rel,
        rel.len() == 0 || rel[0] != '/' ==> path_joined(Seq::empty(), rel) == rel && path_joined(
            base + seq!['/'],
            rel,
        ) == base + seq!['/'] + rel,
        base.len() > 0 && base.last() != '/' && (rel.len() == 0 || rel[0] != '/') ==> path_joined(
            base,
            rel,
        ) == base + seq!['/'] + rel,
{
    reveal_strlit("/");
    assert("/"@ =~= seq!['/']);
    assert((seq!['/'] + rel)[0] == '/');
    assert(Seq::<char>::empty() + rel =~= rel);
    assert((base + seq!['/']).last() == '/');
}

proof fn lemma_one_more(path: Seq<char>, name: Seq<char>)
    requires
        !name.contains('/'),
    ensures
        pieces(path + seq!['/'] + name, '/') == pieces(path, '/').push(name),
{
    let slashed = path + seq!['/'];
    assert(slashed.drop_last() =~= path);
    assert(pieces(slashed, '/') == pieces(path, '/').push(Seq::empty()));
    lemma_pieces_extend(slashed, name, '/');
    assert(pieces(slashed, '/').drop_last() =~= pieces(path, '/'));
    assert(Seq::<char>::empty() + name =~= name);
}

/// A path that starts at the root is normal step by step: the root is normal; an empty name and a
/// dot add nothing; two dots take back the name before them, and at the root nothing; any other
/// name is added.
#[verifier::spinoff_prover]
#[verifier::rlimit(50)]
pub proof fn a_path_is_normalized_step_by_step(path: Seq<char>, name: Seq<char>)
    requires
        is_absolute(path),
        !name.contains('/'),
    ensures
        normalized(seq!['/']) == seq!['/'],
        normalized(path + seq!['/']) == normalized(path),
        normalized(path + seq!['/', '.']) == normalized(path),
        normalized(path) == seq!['/'] ==> normalized(path + seq!['/', '.', '.']) == seq!['/'],
        name.len() > 0 && name != seq!['.'] && name != seq!['.', '.'] ==> {
            &&& normalized(path + seq!['/'] + name) == (if normalized(path) == seq!['/'] {
                seq!['/'] + name
            } else {
                normalized(path) + seq!['/'] + name
            })
            &&& normalized(path + seq!['/'] + name + seq!['/', '.', '.']) == normalized(path)
        },
{
    reveal_strlit("/");
    reveal_strlit(".");
    reveal_strlit("..");
    let slash = seq!['/'];
    let none = Seq::<char>::empty();
    assert("/"@ =~= slash);
    assert("."@ =~= seq!['.']);
    assert(".."@ =~= seq!['.', '.']);
    let parts = pieces(path, '/');
    let names = settled(parts, true);
    lemma_pieces(path, '/');
    // the root
    assert(slash.drop_last() =~= none);
    assert(pieces(none, '/') =~= seq![none]);
    assert(pieces(slash, '/') =~= seq![none, none]);
    assert(seq![none, none].drop_last() =~= seq![none]);
    assert(seq![none].drop_last() =~= Seq::empty());
    assert(settled(Seq::<Seq<char>>::empty(), true) =~= Seq::<Seq<char>>::empty());
    assert(seq![none].last() == none && seq![none, none].last() == none);
    assert(settled(seq![none], true) =~= Seq::<Seq<char>>::empty());
    assert(settled(seq![none, none], true) =~= Seq::<Seq<char>>::empty());
    assert(slash + none =~= slash);
    // names that add nothing
    assert(!none.contains('/'));
    lemma_one_more(path, none);
    assert(path + slash + none =~= path + slash);
    assert(parts.push(none).drop_last() =~= parts);
    let dot = seq!['.'];
    assert(!dot.contains('/')) by {
        assert(dot[0] == '.');
    }
    lemma_one_more(path, dot);
    assert(path + slash + dot =~= path + seq!['/', '.']);
    assert(parts.push(dot).drop_last() =~= parts);
    let dots = seq!['.', '.'];
    assert(!dots.contains('/')) by {
        assert(dots[0] == '.' && dots[1] == '.');
    }
    lemma_one_more(path, dots);
    assert(path + slash + dots =~= path + seq!['/', '.', '.']);
    assert(parts.push(dots).drop_last() =~= parts);
    assert((path + slash)[0] == '/' && (path + seq!['/', '.'])[0] == '/' && (path + seq![
        '/',
        '.',
        '.',
    ])[0] == '/');
    lemma_root_only(parts);
    // names that are added
    if name.len() > 0 && name != dot && name != dots {
        lemma_one_more(path, name);
        assert(parts.push(name).drop_last() =~= parts);
        let longer = path + slash + name;
        assert(longer[0] == '/');
        assert(settled(parts.push(name), true) == names.push(name));
        assert(names.push(name).drop_last() =~= names);
        if names.len() == 0 {
            assert(joined(names, "/"@) =~= none);
            assert(joined(names.push(name), "/"@) =~= name);
        } else {
            assert(joined(names.push(name), "/"@) == joined(names, "/"@) + "/"@ + name);
            assert(slash + (joined(names, "/"@) + slash + name) =~= slash + joined(names, "/"@) + slash
                + name);
        }
        lemma_one_more(longer, dots);
        assert(longer + slash + dots =~= longer + seq!['/', '.', '.']);
        assert((longer + seq!['/', '.', '.'])[0] == '/');
        let all = pieces(longer, '/');
        assert(all.push(dots).drop_last() =~= all);
        assert(settled(all.push(dots), true) == names);
    }
}

/// The text of a path that starts at the root is the root alone exactly where there is no name.
proof fn lemma_root_only(parts: Seq<Seq<char>>)
    ensures
        ({
            let names = settled(parts, true);
            rendered(names, true) == seq!['/'] <==> names.len() == 0
        }),
{
    reveal_strlit("/");
    assert("/"@ =~= seq!['/']);
    let names = settled(parts, true);
    if names.len() == 0 {
        assert(joined(names, "/"@) =~= Seq::empty());
        assert(seq!['/'] + Seq::<char>::empty() =~= seq!['/']);
    } else {
        lemma_filled(parts);
        lemma_joined_filled(names);
        assert(rendered(names, true).len() > 1);
        assert(seq!['/'].len() == 1);
    }
}

proof fn lemma_filled(parts: Seq<Seq<char>>)
    ensures
        forall|i: int|
            0 <= i < settled(parts, true).len() ==> (#[trigger] settled(parts, true)[i]).len() > 0,
    decreases parts.len(),
{
    if parts.len() > 0 {
        lemma_filled(parts.drop_last());
        let front = settled(parts.drop_last(), true);
        let all = settled(parts, true);
        reveal_strlit("..");
        assert forall|i: int| 0 <= i < all.len() implies (#[trigger] all[i]).len() > 0 by {
            if i < front.len() {
                assert(front[i].len() > 0);
                assert(all[i] == front[i]);
            } else {
                assert(all[i] == parts.last());
            }
        }
    }
}

proof fn lemma_joined_filled(names: Seq<Seq<char>>)
    requires
        names.len() > 0,
        forall|i: int| 0 <= i < names.len() ==> (#[trigger] names[i]).len() > 0,
    ensures
        joined(names, "/"@).len() > 0,
{
    assert(names[names.len() - 1].len() > 0);
    assert(names[0].len() > 0);
}

proof fn lemma_tail_of(lead: Seq<char>, name: Seq<char>)
    requires
        !name.contains('/'),
        lead.len() == 0 || lead.last() == '/',
    ensures
        tail_length(lead + name) == name.len(),
    decreases name.len(),
{
    let whole = lead + name;
    if name.len() > 0 {
        let front = name.drop_last();
        assert(whole.drop_last() =~= lead + front);
        assert(whole.last() == name.last());
        assert(name.last() != '/') by {
            assert(name.contains(name[name.len() - 1]));
        }
        assert(!front.contains('/')) by {
            if front.contains('/') {
                let i = front.index_of('/');
                assert(name[i] == '/');
            }
        }
        lemma_tail_of(lead, front);
    } else {
        assert(whole =~= lead);
    }
}

/// The last name of a path is what stands behind its last separator, and its directory what stands
/// before: the root for a name at the root, nothing for a name alone.
pub proof fn a_path_ends_in_its_last_name(lead: Seq<char>, name: Seq<char>)
    requires
        !name.contains('/'),
        name.len() > 0,
        name != seq!['.'],
        name != seq!['.', '.'],
        lead.len() > 0,
        !idle_end(lead),
        lead != seq!['/'],
    ensures
        last_name(name) == Some(name),
        parent_path(name) == Some(Seq::<char>::empty()),
        last_name(seq!['/'] + name) == Some(name),
        parent_path(seq!['/'] + name) == Some(seq!['/']),
        last_name(lead + seq!['/'] + name) == Some(name),
        parent_path(lead + seq!['/'] + name) == Some(lead),
{
    reveal_strlit("/");
    reveal_strlit(".");
    reveal_strlit("..");
    assert("/"@ =~= seq!['/']);
    assert("."@ =~= seq!['.']);
    assert(".."@ =~= seq!['.', '.']);
    let none = Seq::<char>::empty();
    assert(none + name =~= name);
    lemma_ends(none, name);
    lemma_ends(seq!['/'], name);
    lemma_ends(lead + seq!['/'], name);
    let slashed = lead + seq!['/'];
    assert(idle_end(slashed));
    assert(slashed.drop_last() =~= lead);
    assert(pruned(lead) == lead);
    assert(!idle_end(seq!['/']));
    assert(!idle_end(none));
}

proof fn lemma_ends(lead: Seq<char>, name: Seq<char>)
    requires
        !name.contains('/'),
        name.len() > 0,
        name != "."@,
        name != ".."@,
        lead.len() == 0 || lead.last() == '/',
    ensures
        last_name(lead + name) == Some(name),
        parent_path(lead + name) == Some(pruned(lead)),
{
    reveal_strlit("/");
    reveal_strlit(".");
    let whole = lead + name;
    assert(name.contains(name[name.len() - 1]));
    assert(!idle_end(whole)) by {
        assert(whole.last() == name.last());
        if name.last() == '.' && whole.len() > 1 && whole[whole.len() - 2] == '/' {
            if name.len() > 1 {
                assert(whole[whole.len() - 2] == name[name.len() - 2]);
                assert(name.contains(name[name.len() - 2]));
            } else {
                assert(name =~= "."@);
            }
        }
    }
    assert(pruned(whole) == whole);
    lemma_tail_of(lead, name);
    assert(whole.skip(name_start(whole)) =~= name);
    assert(whole.take(name_start(whole)) =~= lead);
    assert(whole != "/"@) by {
        assert(whole.last() != '/');
    }
}

} // verus!
