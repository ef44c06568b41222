//! Expansion of a named line of a library into the ordered list of element
//! templates it stands for.
use vstd::prelude::*;
use crate::imported_parser::{
    element_views, param_views, texts, ElegantElement, ElementView, IntermedType, Library,
    LibView, LineView, Param, ParamValue,
};
use crate::text::{strip_quotes, unquoted};

verus! {

/// Why a line could not be expanded.
#[derive(Debug, Clone)]
pub enum ExpandError {
    /// The name is neither a line, an ignored name nor an element.
    Undefined(String),
    /// The line contains itself, directly or through other lines.
    Cycle(String),
}

pub enum ExpandErrorView {
    Undefined(Seq<char>),
    Cycle(Seq<char>),
}

impl ExpandError {
    pub open spec fn view(&self) -> ExpandErrorView {
        match self {
            ExpandError::Undefined(s) => ExpandErrorView::Undefined(s@),
            ExpandError::Cycle(s) => ExpandErrorView::Cycle(s@),
        }
    }
}

/// The members of the latest line called `name`.
pub open spec fn find_line(lines: Seq<LineView>, name: Seq<char>) -> Option<Seq<Seq<char>>>
    decreases lines.len(),
{
    if lines.len() == 0 {
        None
    } else if lines.last().0 == name {
        Some(lines.last().1)
    } else {
        find_line(lines.drop_last(), name)
    }
}

/// The latest element template called `name`.
pub open spec fn find_element(elements: Seq<ElementView>, name: Seq<char>) -> Option<ElementView>
    decreases elements.len(),
{
    if elements.len() == 0 {
        None
    } else if elements.last().0 == name {
        Some(elements.last())
    } else {
        find_element(elements.drop_last(), name)
    }
}

/// The templates that `name` stands for, quotes in it disregarded: a line
/// stands for its members' templates in order, an ignored name for none,
/// an element for itself. Lines nest at most `depth` deep.
pub open spec fn expand(lib: LibView, name: Seq<char>, depth: nat) -> Result<
    Seq<ElementView>,
    ExpandErrorView,
>
    decreases depth, 0nat,
{
    let n = unquoted(name);
    match find_line(lib.2, n) {
        Some(ms) => if depth == 0 {
            Err(ExpandErrorView::Cycle(n))
        } else {
            expand_all(lib, ms, (depth - 1) as nat)
        },
        None => if lib.1.contains(n) {
            Ok(seq![])
        } else {
            match find_element(lib.0, n) {
                Some(e) => Ok(seq![e]),
                None => Err(ExpandErrorView::Undefined(n)),
            }
        },
    }
}

/// The templates of `ms`, one name after the other.
pub open spec fn expand_all(lib: LibView, ms: Seq<Seq<char>>, depth: nat) -> Result<
    Seq<ElementView>,
    ExpandErrorView,
>
    decreases depth, ms.len(),
{
    if ms.len() == 0 {
        Ok(seq![])
    } else {
        match expand_all(lib, ms.drop_last(), depth) {
            Ok(a) => match expand(lib, ms.last(), depth) {
                Ok(b) => Ok(a + b),
                Err(e) => Err(e),
            },
            Err(e) => Err(e),
        }
    }
}

/// Expanding a line whose members each name an element template (and no
/// line and no ignored name) gives those templates, one for each member,
/// in the order of the members.
pub proof fn lemma_line_expands_in_order(lib: LibView, name: Seq<char>, depth: nat)
    requires
        depth > 0,
        find_line(lib.2, unquoted(name)) is Some,
        forall|i: int|
            0 <= i < find_line(lib.2, unquoted(name))->0.len() ==> {
                let m = unquoted(#[trigger] find_line(lib.2, unquoted(name))->0[i]);
                &&& find_line(lib.2, m) is None
                &&& !lib.1.contains(m)
                &&& find_element(lib.0, m) is Some
            },
    ensures
        expand(lib, name, depth) == Ok::<Seq<ElementView>, ExpandErrorView>(
            find_line(lib.2, unquoted(name))->0.map_values(
                |m: Seq<char>| find_element(lib.0, unquoted(m))->0,
            ),
        ),
{
    let ms = find_line(lib.2, unquoted(name))->0;
    lemma_members_expand_in_order(lib, ms, (depth - 1) as nat);
}

proof fn lemma_members_expand_in_order(lib: LibView, ms: Seq<Seq<char>>, depth: nat)
    requires
        forall|i: int|
            0 <= i < ms.len() ==> {
                let m = unquoted(#[trigger] ms[i]);
                &&& find_line(lib.2, m) is None
                &&& !lib.1.contains(m)
                &&& find_element(lib.0, m) is Some
            },
    ensures
        expand_all(lib, ms, depth) == Ok::<Seq<ElementView>, ExpandErrorView>(
            ms.map_values(|m: Seq<char>| find_element(lib.0, unquoted(m))->0),
        ),
    decreases ms.len(),
{
    if ms.len() > 0 {
        let init = ms.drop_last();
        assert forall|i: int| 0 <= i < init.len() implies {
            let m = unquoted(#[trigger] init[i]);
            &&& find_line(lib.2, m) is None
            &&& !lib.1.contains(m)
            &&& find_element(lib.0, m) is Some
        } by {
            assert(init[i] == ms[i]);
        }
        lemma_members_expand_in_order(lib, init, depth);
        let last = ms[ms.len() - 1];
        assert(ms.last() == last);
        let m = unquoted(last);
        assert(find_line(lib.2, m) is None);
        assert(!lib.1.contains(m));
        assert(find_element(lib.0, m) is Some);
        assert(expand(lib, last, depth) == Ok::<Seq<ElementView>, ExpandErrorView>(
            seq![find_element(lib.0, m)->0],
        ));
        assert(ms.map_values(|m: Seq<char>| find_element(lib.0, unquoted(m))->0) =~= init.map_values(
            |m: Seq<char>| find_element(lib.0, unquoted(m))->0,
        ) + seq![find_element(lib.0, m)->0]);
    } else {
        assert(ms.map_values(|m: Seq<char>| find_element(lib.0, unquoted(m))->0) =~= seq![]);
    }
}

} // verus!

verus! {

proof fn lemma_prefix_error(lib: LibView, ms: Seq<Seq<char>>, k: nat, depth: nat)
    requires
        k <= ms.len(),
        expand_all(lib, ms.take(k as int), depth) is Err,
    ensures
        expand_all(lib, ms, depth) == expand_all(lib, ms.take(k as int), depth),
    decreases ms.len(),
{
    if ms.len() == k {
        assert(ms.take(k as int) =~= ms);
    } else {
        assert(ms.drop_last().take(k as int) =~= ms.take(k as int));
        lemma_prefix_error(lib, ms.drop_last(), k, depth);
    }
}

fn clone_text(s: &String) -> (r: String)
    ensures
        r@ == s@,
{
    s.clone()
}

fn clone_texts(v: &Vec<String>) -> (r: Vec<String>)
    ensures
        texts(r@) == texts(v@),
{
    let mut out: Vec<String> = Vec::new();
    let mut i: usize = 0;
    while i < v.len()
        invariant
            i <= v@.len(),
            texts(out@) == texts(v@).take(i as int),
        decreases v@.len() - i,
    {
        let ghost before = texts(out@);
        let x = clone_text(&v[i]);
        out.push(x);
        assert(texts(out@) =~= before.push(texts(v@)[i as int]));
        assert(texts(out@) =~= texts(v@).take(i + 1));
        i += 1;
    }
    assert(texts(v@).take(v@.len() as int) =~= texts(v@));
    out
}

fn clone_params(v: &Vec<Param>) -> (r: Vec<Param>)
    ensures
        param_views(r@) == param_views(v@),
{
    let mut out: Vec<Param> = Vec::new();
    let mut i: usize = 0;
    while i < v.len()
        invariant
            i <= v@.len(),
            param_views(out@) == param_views(v@).take(i as int),
        decreases v@.len() - i,
    {
        let value = match &v[i].value {
            ParamValue::Number(s) => ParamValue::Number(clone_text(s)),
            ParamValue::Expr(k) => ParamValue::Expr(*k),
        };
        let ghost before = param_views(out@);
        let p = Param { name: clone_text(&v[i].name), value };
        assert(p.view() == param_views(v@)[i as int]);
        out.push(p);
        assert(param_views(out@) =~= before.push(param_views(v@)[i as int]));
        assert(param_views(out@) =~= param_views(v@).take(i + 1));
        i += 1;
    }
    assert(param_views(v@).take(v@.len() as int) =~= param_views(v@));
    out
}

/// A copy of an element template.
pub fn clone_element(e: &ElegantElement) -> (r: ElegantElement)
    ensures
        r.view() == e.view(),
{
    let intermed_type = match &e.intermed_type {
        IntermedType::Drift => IntermedType::Drift,
        IntermedType::AccCav => IntermedType::AccCav,
        IntermedType::Kick => IntermedType::Kick,
        IntermedType::Moni => IntermedType::Moni,
        IntermedType::Bend => IntermedType::Bend,
        IntermedType::Quad => IntermedType::Quad,
        IntermedType::Sext => IntermedType::Sext,
        IntermedType::Line(v) => IntermedType::Line(clone_texts(v)),
        IntermedType::Ignore => IntermedType::Ignore,
    };
    ElegantElement { name: clone_text(&e.name), intermed_type, params: clone_params(&e.params) }
}

fn line_index(lib: &Library, name: &String) -> (r: Option<usize>)
    ensures
        match find_line(lib.view().2, name@) {
            Some(ms) => r matches Some(k) && k < lib.lines@.len() && texts(lib.lines@[k as int].members@)
                == ms,
            None => r is None,
        },
{
    let ghost lines = lib.view().2;
    let mut i = lib.lines.len();
    assert(lines.take(i as int) =~= lines);
    while i > 0
        invariant
            lines == lib.view().2,
            i <= lib.lines@.len(),
            find_line(lines, name@) == find_line(lines.take(i as int), name@),
        decreases i,
    {
        let ghost l = lines.take(i as int);
        assert(l.drop_last() =~= lines.take(i - 1));
        assert(l.last() == lines[i - 1]);
        if lib.lines[i - 1].name == *name {
            return Some(i - 1);
        }
        i -= 1;
    }
    None
}

fn element_index(lib: &Library, name: &String) -> (r: Option<usize>)
    ensures
        match find_element(lib.view().0, name@) {
            Some(e) => r matches Some(k) && k < lib.elements@.len() && lib.elements@[k as int].view()
                == e,
            None => r is None,
        },
{
    let ghost els = lib.view().0;
    let mut i = lib.elements.len();
    assert(els.take(i as int) =~= els);
    while i > 0
        invariant
            els == lib.view().0,
            i <= lib.elements@.len(),
            find_element(els, name@) == find_element(els.take(i as int), name@),
        decreases i,
    {
        let ghost l = els.take(i as int);
        assert(l.drop_last() =~= els.take(i - 1));
        assert(l.last() == els[i - 1]);
        if lib.elements[i - 1].name == *name {
            return Some(i - 1);
        }
        i -= 1;
    }
    None
}

fn is_ignored(lib: &Library, name: &String) -> (r: bool)
    ensures
        r == lib.view().1.contains(name@),
{
    let ghost ig = lib.view().1;
    let mut i: usize = 0;
    while i < lib.ignored.len()
        invariant
            ig == lib.view().1,
            i <= lib.ignored@.len(),
            forall|k: int| 0 <= k < i ==> ig[k] != name@,
        decreases lib.ignored@.len() - i,
    {
        if lib.ignored[i] == *name {
            assert(ig[i as int] == name@);
            return true;
        }
        i += 1;
    }
    false
}

/// Appends to `line` the templates that `line_name` stands for, lines
/// nesting at most `depth` deep.
pub fn intermed_to_line(
    line: &mut Vec<ElegantElement>,
    intermed: &Library,
    line_name: &String,
    depth: usize,
) -> (r: Result<(), ExpandError>)
    ensures
        match expand(intermed.view(), line_name@, depth as nat) {
            Ok(es) => r is Ok && element_views(final(line)@) == element_views(old(line)@) + es,
            Err(e) => r matches Err(x) && x.view() == e,
        },
    decreases depth,
{
    let name = strip_quotes(line_name);
    match line_index(intermed, &name) {
        Some(k) => {
            if depth == 0 {
                return Err(ExpandError::Cycle(name));
            }
            let members = &intermed.lines[k].members;
            let ghost ms = texts(members@);
            let mut i: usize = 0;
            let ghost start = element_views(line@);
            assert(ms.take(0) =~= seq![]);
            assert(start + seq![] =~= start);
            while i < members.len()
                invariant
                    ms == texts(members@),
                    name@ == unquoted(line_name@),
                    find_line(intermed.view().2, name@) == Some(ms),
                    i <= members@.len(),
                    depth > 0,
                    start == element_views(old(line)@),
                    expand_all(intermed.view(), ms.take(i as int), (depth - 1) as nat) matches Ok(a)
                        && element_views(line@) == start + a,
                decreases members@.len() - i,
            {
                let ghost before = element_views(line@);
                let ghost prefix = ms.take(i as int);
                let ghost a = expand_all(intermed.view(), prefix, (depth - 1) as nat)->Ok_0;
                assert(ms.take(i + 1).drop_last() =~= prefix);
                assert(ms.take(i + 1).last() == members@[i as int]@);
                match intermed_to_line(line, intermed, &members[i], depth - 1) {
                    Ok(()) => {},
                    Err(e) => {
                        proof {
                            let upto_next = ms.take(i + 1);
                            assert(upto_next.drop_last() =~= prefix);
                            assert(upto_next.last() == members@[i as int]@);
                            assert(expand_all(intermed.view(), upto_next, (depth - 1) as nat) == Err::<
                                Seq<ElementView>,
                                ExpandErrorView,
                            >(e.view()));
                            lemma_prefix_error(intermed.view(), ms, (i + 1) as nat, (depth - 1) as nat);
                        }
                        return Err(e);
                    },
                }
                proof {
                    let b = expand(intermed.view(), members@[i as int]@, (depth - 1) as nat)->Ok_0;
                    assert(element_views(line@) == before + b);
                    assert(start + (a + b) =~= (start + a) + b);
                }
                i += 1;
            }
            assert(ms.take(members@.len() as int) =~= ms);
            Ok(())
        },
        None => {
            if is_ignored(intermed, &name) {
                assert(element_views(line@) =~= element_views(old(line)@) + seq![]);
                Ok(())
            } else {
                match element_index(intermed, &name) {
                    Some(k) => {
                        let e = clone_element(&intermed.elements[k]);
                        let ghost before = element_views(line@);
                        let ghost ev = e.view();
                        line.push(e);
                        assert(element_views(line@) =~= before + seq![ev]);
                        Ok(())
                    },
                    None => Err(ExpandError::Undefined(name)),
                }
            }
        },
    }
}

/// The templates that the line `name` of `lib` stands for. A line may nest
/// others at most as deep as the library holds lines; deeper nesting can
/// only come from a line that contains itself.
pub fn expand_line(lib: &Library, name: &String) -> (r: Result<Vec<ElegantElement>, ExpandError>)
    ensures
        match expand(lib.view(), name@, lib.lines@.len()) {
            Ok(es) => r matches Ok(v) && element_views(v@) == es,
            Err(e) => r matches Err(x) && x.view() == e,
        },
{
    let mut line: Vec<ElegantElement> = Vec::new();
    assert(element_views(line@) =~= seq![]);
    intermed_to_line(&mut line, lib, name, lib.lines.len())?;
    proof {
        if let Ok(es) = expand(lib.view(), name@, lib.lines@.len()) {
            assert(seq![] + es =~= es);
        }
    }
    Ok(line)
}

} // verus!
