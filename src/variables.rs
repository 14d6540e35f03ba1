use vstd::prelude::*;

use crate::value::{ErrorKind, ValueView, VariableContent, VariableTypes};

verus! {

/// One name bound in a scope frame.
pub struct Binding {
    pub name: String,
    pub content: VariableContent,
}

/// The mapping that a frame's bindings denote; a later binding of a name
/// overrides an earlier one.
pub open spec fn frame_map(f: Seq<Binding>) -> Map<Seq<char>, ValueView>
    decreases f.len(),
{
    if f.len() == 0 {
        Map::empty()
    } else {
        frame_map(f.drop_last()).insert(f.last().name@, f.last().content@)
    }
}

/// The value that `name` has in a stack of frames, searched innermost first.
pub open spec fn lookup_in(frames: Seq<Map<Seq<char>, ValueView>>, name: Seq<char>) -> Option<
    ValueView,
>
    decreases frames.len(),
{
    if frames.len() == 0 {
        None
    } else if frames.last().contains_key(name) {
        Some(frames.last()[name])
    } else {
        lookup_in(frames.drop_last(), name)
    }
}

/// The stack after overwriting `name` in the innermost frame that holds it.
pub open spec fn assign_in(
    frames: Seq<Map<Seq<char>, ValueView>>,
    name: Seq<char>,
    v: ValueView,
) -> Seq<Map<Seq<char>, ValueView>>
    decreases frames.len(),
{
    if frames.len() == 0 {
        frames
    } else if frames.last().contains_key(name) {
        frames.update(frames.len() - 1, frames.last().insert(name, v))
    } else {
        assign_in(frames.drop_last(), name, v).push(frames.last())
    }
}

/// The stack after binding `name` to `v` in the innermost frame.
pub open spec fn declare_in(
    frames: Seq<Map<Seq<char>, ValueView>>,
    name: Seq<char>,
    v: ValueView,
) -> Seq<Map<Seq<char>, ValueView>> {
    frames.update(frames.len() - 1, frames.last().insert(name, v))
}

proof fn lemma_frame_map_found(f: Seq<Binding>, i: int)
    requires
        0 <= i < f.len(),
        forall|j: int| i < j < f.len() ==> f[j].name@ != f[i].name@,
    ensures
        frame_map(f).contains_key(f[i].name@),
        frame_map(f)[f[i].name@] == f[i].content@,
    decreases f.len(),
{
    if i < f.len() - 1 {
        lemma_frame_map_found(f.drop_last(), i);
    }
}

proof fn lemma_frame_map_absent(f: Seq<Binding>, k: Seq<char>)
    requires
        forall|j: int| 0 <= j < f.len() ==> f[j].name@ != k,
    ensures
        !frame_map(f).contains_key(k),
    decreases f.len(),
{
    if f.len() > 0 {
        lemma_frame_map_absent(f.drop_last(), k);
    }
}

proof fn lemma_frame_map_update(f: Seq<Binding>, i: int, b: Binding)
    requires
        0 <= i < f.len(),
        f[i].name@ == b.name@,
        forall|j: int| i < j < f.len() ==> f[j].name@ != f[i].name@,
    ensures
        frame_map(f.update(i, b)) == frame_map(f).insert(b.name@, b.content@),
    decreases f.len(),
{
    let g = f.update(i, b);
    if i == f.len() - 1 {
        assert(g.drop_last() =~= f.drop_last());
    } else {
        assert(g.drop_last() =~= f.drop_last().update(i, b));
        lemma_frame_map_update(f.drop_last(), i, b);
        assert(frame_map(g) =~= frame_map(f).insert(b.name@, b.content@));
    }
}

proof fn lemma_frame_map_push(f: Seq<Binding>, b: Binding)
    ensures
        frame_map(f.push(b)) == frame_map(f).insert(b.name@, b.content@),
{
    assert(f.push(b).drop_last() =~= f);
}

proof fn lemma_lookup_above(frames: Seq<Map<Seq<char>, ValueView>>, name: Seq<char>, i: int)
    requires
        0 <= i <= frames.len(),
        forall|k: int| i <= k < frames.len() ==> !frames[k].contains_key(name),
    ensures
        lookup_in(frames, name) == lookup_in(frames.subrange(0, i), name),
    decreases frames.len(),
{
    if i < frames.len() {
        lemma_lookup_above(frames.drop_last(), name, i);
        assert(frames.drop_last().subrange(0, i) =~= frames.subrange(0, i));
    } else {
        assert(frames.subrange(0, i) =~= frames);
    }
}

proof fn lemma_assign_at(
    frames: Seq<Map<Seq<char>, ValueView>>,
    name: Seq<char>,
    v: ValueView,
    i: int,
)
    requires
        0 <= i < frames.len(),
        frames[i].contains_key(name),
        forall|k: int| i < k < frames.len() ==> !frames[k].contains_key(name),
    ensures
        assign_in(frames, name, v) == frames.update(i, frames[i].insert(name, v)),
    decreases frames.len(),
{
    if i < frames.len() - 1 {
        lemma_assign_at(frames.drop_last(), name, v, i);
        assert(frames.drop_last().update(i, frames[i].insert(name, v)).push(frames.last())
            =~= frames.update(i, frames[i].insert(name, v)));
    }
}

proof fn lemma_assign_absent(frames: Seq<Map<Seq<char>, ValueView>>, name: Seq<char>, v: ValueView)
    requires
        forall|k: int| 0 <= k < frames.len() ==> !frames[k].contains_key(name),
    ensures
        assign_in(frames, name, v) == frames,
    decreases frames.len(),
{
    if frames.len() > 0 {
        lemma_assign_absent(frames.drop_last(), name, v);
        assert(frames.drop_last().push(frames.last()) =~= frames);
    }
}

/// The name of a kind, as the debug listing writes it.
pub open spec fn kind_text(k: VariableTypes) -> Seq<char> {
    match k {
        VariableTypes::INT => "INT"@,
        VariableTypes::STRING => "STRING"@,
        VariableTypes::FLOAT => "FLOAT"@,
        VariableTypes::BOOL => "BOOL"@,
        VariableTypes::NULL => "NULL"@,
    }
}

/// One line of the debug listing: `name: KIND text`.
pub open spec fn binding_line(b: Binding) -> Seq<char> {
    b.name@ + ": "@ + kind_text(b.content.data_type) + " "@ + b.content.value@ + "\n"@
}

/// The debug listing of a frame, one line per binding in the order of
/// declaration.
pub open spec fn dump_frame(bs: Seq<Binding>) -> Seq<char>
    decreases bs.len(),
{
    if bs.len() == 0 {
        Seq::empty()
    } else {
        dump_frame(bs.drop_last()) + binding_line(bs.last())
    }
}

fn kind_name(k: VariableTypes) -> (r: &'static str)
    ensures
        r@ == kind_text(k),
{
    match k {
        VariableTypes::INT => "INT",
        VariableTypes::STRING => "STRING",
        VariableTypes::FLOAT => "FLOAT",
        VariableTypes::BOOL => "BOOL",
        VariableTypes::NULL => "NULL",
    }
}

/// Assignment keeps the number of frames.
pub proof fn lemma_assign_len(frames: Seq<Map<Seq<char>, ValueView>>, name: Seq<char>, v: ValueView)
    ensures
        assign_in(frames, name, v).len() == frames.len(),
    decreases frames.len(),
{
    if frames.len() > 0 && !frames.last().contains_key(name) {
        lemma_assign_len(frames.drop_last(), name, v);
    }
}

/// The scope stack: an ordered sequence of frames, innermost last. The root
/// frame is never removed.
pub struct VariableContainer {
    variables: Vec<Vec<Binding>>,
}

impl VariableContainer {
    /// The frames, each as the mapping it denotes, outermost first.
    pub closed spec fn frames(&self) -> Seq<Map<Seq<char>, ValueView>> {
        Seq::new(self.variables@.len(), |i: int| frame_map(self.variables@[i]@))
    }

    /// The stack always holds the root frame.
    pub open spec fn wf(&self) -> bool {
        self.frames().len() >= 1
    }

    /// The number of frames.
    pub open spec fn depth(&self) -> nat {
        self.frames().len()
    }

    /// What `name` currently denotes, if anything.
    pub open spec fn lookup(&self, name: Seq<char>) -> Option<ValueView> {
        lookup_in(self.frames(), name)
    }

    /// The bindings of the innermost frame, in the order of declaration.
    pub closed spec fn innermost(&self) -> Seq<Binding> {
        self.variables@.last()@
    }

    /// A stack holding only an empty root frame.
    pub fn new() -> (r: VariableContainer)
        ensures
            r.wf(),
            r.frames() == seq![Map::<Seq<char>, ValueView>::empty()],
    {
        let mut variables: Vec<Vec<Binding>> = Vec::new();
        variables.push(Vec::new());
        let r = VariableContainer { variables };
        assert(r.frames() =~= seq![Map::<Seq<char>, ValueView>::empty()]);
        r
    }

    /// The number of frames, root included.
    pub fn scope_depth(&self) -> (r: usize)
        ensures
            r == self.depth(),
    {
        self.variables.len()
    }

    /// Enters a nested scope: pushes an empty frame.
    pub fn scope_in(&mut self)
        requires
            old(self).wf(),
        ensures
            final(self).wf(),
            final(self).frames() == old(self).frames().push(Map::empty()),
    {
        self.variables.push(Vec::new());
        assert(self.frames() =~= old(self).frames().push(Map::empty()));
    }

    /// Leaves the innermost scope: pops its frame. The root frame stays.
    pub fn scope_out(&mut self)
        requires
            old(self).wf(),
            old(self).depth() > 1,
        ensures
            final(self).wf(),
            final(self).frames() == old(self).frames().drop_last(),
    {
        self.variables.pop();
        assert(self.frames() =~= old(self).frames().drop_last());
    }

    /// Searches frame `i` for `name`, latest binding first.
    fn find_in_frame(&self, i: usize, name: &String) -> (r: Option<usize>)
        requires
            i < self.variables@.len(),
        ensures
            match r {
                Some(j) => {
                    &&& j < self.variables@[i as int]@.len()
                    &&& self.variables@[i as int]@[j as int].name@ == name@
                    &&& forall|k: int|
                        j < k < self.variables@[i as int]@.len()
                            ==> self.variables@[i as int]@[k].name@ != name@
                },
                None => forall|k: int|
                    0 <= k < self.variables@[i as int]@.len()
                        ==> self.variables@[i as int]@[k].name@ != name@,
            },
    {
        let frame = &self.variables[i];
        let mut j: usize = frame.len();
        while j > 0
            invariant
                j <= frame@.len(),
                frame@ == self.variables@[i as int]@,
                forall|k: int| j <= k < frame@.len() ==> frame@[k].name@ != name@,
            decreases j,
        {
            j = j - 1;
            if frame[j].name == *name {
                return Some(j);
            }
        }
        None
    }

    /// Binds `name` to `value` in the innermost frame, shadowing any outer
    /// binding of the same name.
    pub fn add_variable(&mut self, name: &str, value: VariableContent)
        requires
            old(self).wf(),
        ensures
            final(self).wf(),
            final(self).frames() == declare_in(old(self).frames(), name@, value@),
    {
        let key = name.to_string();
        let last = self.variables.len() - 1;
        let found = self.find_in_frame(last, &key);
        let b = Binding { name: key, content: value };
        proof {
            let f = self.variables@[last as int]@;
            match found {
                Some(j) => lemma_frame_map_update(f, j as int, b),
                None => lemma_frame_map_push(f, b),
            }
        }
        match found {
            Some(j) => {
                self.variables[last][j] = b;
            },
            None => {
                self.variables[last].push(b);
            },
        }
        assert(self.frames() =~= declare_in(old(self).frames(), name@, value@));
    }

    /// What `name` denotes, searched from the innermost frame outwards; a
    /// copy, so later writes to the stack do not reach it.
    pub fn get_variable(&self, name: &str) -> (r: Result<VariableContent, ErrorKind>)
        requires
            self.wf(),
        ensures
            match self.lookup(name@) {
                Some(v) => (r matches Ok(c) && c@ == v),
                None => r == Err::<VariableContent, ErrorKind>(ErrorKind::NameError),
            },
    {
        let key = name.to_string();
        let mut i: usize = self.variables.len();
        while i > 0
            invariant
                i <= self.variables@.len(),
                key@ == name@,
                forall|k: int| i <= k < self.frames().len() ==> !self.frames()[k].contains_key(name@),
            decreases i,
        {
            i = i - 1;
            match self.find_in_frame(i, &key) {
                Some(j) => {
                    proof {
                        lemma_frame_map_found(self.variables@[i as int]@, j as int);
                        lemma_lookup_above(self.frames(), name@, i + 1);
                        assert(self.frames().subrange(0, i + 1).drop_last() =~= self.frames().subrange(0, i as int));
                    }
                    return Ok(self.variables[i][j].content.duplicate());
                },
                None => {
                    proof {
                        lemma_frame_map_absent(self.variables@[i as int]@, name@);
                    }
                },
            }
        }
        proof {
            lemma_lookup_above(self.frames(), name@, 0);
        }
        Err(ErrorKind::NameError)
    }

    /// Overwrites `name` in the innermost frame that holds it; a name that no
    /// frame holds is an error, not an implicit declaration.
    pub fn set_variable(&mut self, name: &str, var_value: VariableContent) -> (r: Result<(), ErrorKind>)
        requires
            old(self).wf(),
        ensures
            final(self).wf(),
            match old(self).lookup(name@) {
                Some(_) => r == Ok::<(), ErrorKind>(()) && final(self).frames() == assign_in(old(self).frames(), name@, var_value@),
                None => r == Err::<(), ErrorKind>(ErrorKind::NameError) && final(self).frames() == old(self).frames(),
            },
    {
        let key = name.to_string();
        let mut i: usize = self.variables.len();
        while i > 0
            invariant
                i <= self.variables@.len(),
                key@ == name@,
                self.variables@ == old(self).variables@,
                self.frames() == old(self).frames(),
                forall|k: int| i <= k < self.frames().len() ==> !self.frames()[k].contains_key(name@),
            decreases i,
        {
            i = i - 1;
            match self.find_in_frame(i, &key) {
                Some(j) => {
                    let ghost old_frames = self.frames();
                    let b = Binding { name: key, content: var_value };
                    proof {
                        let f = self.variables@[i as int]@;
                        lemma_frame_map_found(f, j as int);
                        lemma_frame_map_update(f, j as int, b);
                        lemma_lookup_above(old_frames, name@, i + 1);
                        assert(old_frames.subrange(0, i + 1).drop_last() =~= old_frames.subrange(0, i as int));
                        lemma_assign_at(old_frames, name@, var_value@, i as int);
                    }
                    self.variables[i][j] = b;
                    assert(self.frames() =~= old_frames.update(i as int, old_frames[i as int].insert(name@, var_value@)));
                    return Ok(());
                },
                None => {
                    proof {
                        lemma_frame_map_absent(self.variables@[i as int]@, name@);
                    }
                },
            }
        }
        proof {
            lemma_lookup_above(self.frames(), name@, 0);
            lemma_assign_absent(self.frames(), name@, var_value@);
        }
        Err(ErrorKind::NameError)
    }

    /// Lists the bindings of the innermost frame, for diagnostics.
    pub fn debug_print_vars(&self) -> (r: String)
        requires
            self.wf(),
        ensures
            r@ == dump_frame(self.innermost()),
    {
        let frame = &self.variables[self.variables.len() - 1];
        let mut text = String::new();
        let mut i: usize = 0;
        while i < frame.len()
            invariant
                i <= frame@.len(),
                frame@ == self.innermost(),
                text@ == dump_frame(frame@.take(i as int)),
            decreases frame@.len() - i,
        {
            assert(frame@.take(i + 1).drop_last() =~= frame@.take(i as int));
            let b = &frame[i];
            text.append(b.name.as_str());
            text.append(": ");
            text.append(kind_name(b.content.data_type));
            text.append(" ");
            text.append(b.content.value.as_str());
            text.append("\n");
            assert(text@ =~= dump_frame(frame@.take(i + 1)));
            i = i + 1;
        }
        assert(frame@.take(frame@.len() as int) =~= frame@);
        text
    }
}

/// A name declared in a scope is found with the declared value in that
/// scope and in every scope nested inside it that does not declare the name
/// again.
pub proof fn lemma_declare_then_lookup(
    frames: Seq<Map<Seq<char>, ValueView>>,
    name: Seq<char>,
    v: ValueView,
    nested: Seq<Map<Seq<char>, ValueView>>,
)
    requires
        frames.len() >= 1,
        forall|k: int| 0 <= k < nested.len() ==> !(#[trigger] nested[k]).contains_key(name),
    ensures
        lookup_in(declare_in(frames, name, v) + nested, name) == Some(v),
{
    let d = declare_in(frames, name, v);
    let all = d + nested;
    assert forall|k: int| d.len() <= k < all.len() implies !all[k].contains_key(name) by {
        assert(all[k] == nested[k - d.len()]);
    }
    lemma_lookup_above(all, name, d.len() as int);
    assert(all.subrange(0, d.len() as int) =~= d);
}

/// Declaring a name in a nested scope leaves the enclosing scopes as they
/// were once the nested scope is left: the outer binding, if any, is seen
/// again.
pub proof fn lemma_shadow_restored(
    frames: Seq<Map<Seq<char>, ValueView>>,
    inner: Map<Seq<char>, ValueView>,
    name: Seq<char>,
    v: ValueView,
)
    ensures
        declare_in(frames.push(inner), name, v).drop_last() == frames,
        lookup_in(declare_in(frames.push(inner), name, v).drop_last(), name) == lookup_in(
            frames,
            name,
        ),
{
    assert(declare_in(frames.push(inner), name, v).drop_last() =~= frames);
}

/// After a declaration, assigning the name succeeds (it is found) and a
/// later lookup gives the assigned value.
pub proof fn lemma_declare_assign_lookup(
    frames: Seq<Map<Seq<char>, ValueView>>,
    name: Seq<char>,
    v1: ValueView,
    v2: ValueView,
)
    requires
        frames.len() >= 1,
    ensures
        lookup_in(declare_in(frames, name, v1), name) is Some,
        lookup_in(assign_in(declare_in(frames, name, v1), name, v2), name) == Some(v2),
{
    let d = declare_in(frames, name, v1);
    assert(d.last().contains_key(name));
    let a = assign_in(d, name, v2);
    assert(a.last() == d.last().insert(name, v2));
}

} // verus!
