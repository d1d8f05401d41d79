//! The elements of an A2L file that carry IF_DATA blocks, and the removal of
//! the blocks that no A2ML specification could read.
use vstd::prelude::*;

use crate::a2ml::GenericIfData;

verus! {

/// An IF_DATA block: its data, and whether an A2ML specification read it
/// (`ifdata_valid`) or it was only read generically.
#[derive(Debug, PartialEq)]
pub struct IfData {
    pub ifdata_items: Option<GenericIfData>,
    pub ifdata_valid: bool,
}

/// An element of a module that may carry IF_DATA blocks (AXIS_PTS, BLOB,
/// CHARACTERISTIC, FRAME, FUNCTION, GROUP, INSTANCE, MEASUREMENT,
/// MEMORY_LAYOUT, MEMORY_SEGMENT), with its name.
#[derive(Debug, PartialEq)]
pub struct IfDataElement {
    pub name: String,
    pub if_data: Vec<IfData>,
}

/// The MOD_PAR section of a module.
#[derive(Debug, PartialEq)]
pub struct ModPar {
    pub memory_layout: Vec<IfDataElement>,
    pub memory_segment: Vec<IfDataElement>,
}

/// A MODULE: its own IF_DATA blocks and its elements that carry some.
#[derive(Debug, PartialEq)]
pub struct Module {
    pub name: String,
    pub if_data: Vec<IfData>,
    pub mod_par: Option<ModPar>,
    pub axis_pts: Vec<IfDataElement>,
    pub blob: Vec<IfDataElement>,
    pub characteristic: Vec<IfDataElement>,
    pub frame: Vec<IfDataElement>,
    pub function: Vec<IfDataElement>,
    pub group: Vec<IfDataElement>,
    pub instance: Vec<IfDataElement>,
    pub measurement: Vec<IfDataElement>,
}

#[derive(Debug, PartialEq)]
pub struct Project {
    pub module: Vec<Module>,
}

#[derive(Debug, PartialEq)]
pub struct A2lFile {
    pub project: Project,
}

/// The valid IF_DATA blocks of a list, in their order.
pub open spec fn valid_only(l: Seq<IfData>) -> Seq<IfData> {
    l.filter(|d: IfData| d.ifdata_valid)
}

/// `new` is `old` with only the valid IF_DATA blocks of each element kept.
pub open spec fn elements_cleaned(old: Seq<IfDataElement>, new: Seq<IfDataElement>) -> bool {
    &&& new.len() == old.len()
    &&& forall|i: int|
        0 <= i < old.len() ==> (#[trigger] new[i]).name == old[i].name && new[i].if_data@
            == valid_only(old[i].if_data@)
}

pub open spec fn mod_par_cleaned(old: Option<ModPar>, new: Option<ModPar>) -> bool {
    match (old, new) {
        (None, None) => true,
        (Some(o), Some(n)) => elements_cleaned(o.memory_layout@, n.memory_layout@)
            && elements_cleaned(o.memory_segment@, n.memory_segment@),
        _ => false,
    }
}

/// `new` is the module `old` with only its valid IF_DATA blocks kept.
pub open spec fn module_cleaned(old: Module, new: Module) -> bool {
    &&& new.name == old.name
    &&& new.if_data@ == valid_only(old.if_data@)
    &&& mod_par_cleaned(old.mod_par, new.mod_par)
    &&& elements_cleaned(old.axis_pts@, new.axis_pts@)
    &&& elements_cleaned(old.blob@, new.blob@)
    &&& elements_cleaned(old.characteristic@, new.characteristic@)
    &&& elements_cleaned(old.frame@, new.frame@)
    &&& elements_cleaned(old.function@, new.function@)
    &&& elements_cleaned(old.group@, new.group@)
    &&& elements_cleaned(old.instance@, new.instance@)
    &&& elements_cleaned(old.measurement@, new.measurement@)
}

/// `new` is the file `old` with only its valid IF_DATA blocks kept.
pub open spec fn file_cleaned(old: A2lFile, new: A2lFile) -> bool {
    &&& new.project.module@.len() == old.project.module@.len()
    &&& forall|i: int|
        0 <= i < old.project.module@.len() ==> module_cleaned(
            old.project.module@[i],
            #[trigger] new.project.module@[i],
        )
}

/// Keeps only the valid IF_DATA blocks of the list, in their order.
pub fn remove_unknown_ifdata_from_list(ifdata_list: &mut Vec<IfData>)
    ensures
        final(ifdata_list)@ == valid_only(old(ifdata_list)@),
{
    let mut new_ifdata_list: Vec<IfData> = Vec::new();
    std::mem::swap(ifdata_list, &mut new_ifdata_list);
    let ghost all = new_ifdata_list@;
    let ghost pred = |d: IfData| d.ifdata_valid;
    for if_data in it: new_ifdata_list
        invariant
            it.seq() == all,
            pred == (|d: IfData| d.ifdata_valid),
            ifdata_list@ == all.take(it.index() as int).filter(pred),
    {
        proof {
            reveal_with_fuel(Seq::<_>::filter, 1);
            assert(all.take(it.index() + 1).drop_last() =~= all.take(it.index() as int));
        }
        if if_data.ifdata_valid {
            ifdata_list.push(if_data);
        }
    }
    proof {
        assert(all.take(all.len() as int) =~= all);
    }
}

/// Cleans each element of the list.
fn remove_unknown_ifdata_from_elements(elements: &mut Vec<IfDataElement>)
    ensures
        elements_cleaned(old(elements)@, final(elements)@),
{
    let mut orig_list: Vec<IfDataElement> = Vec::new();
    std::mem::swap(elements, &mut orig_list);
    let ghost orig = orig_list@;
    for element in it: orig_list
        invariant
            it.seq() == orig,
            elements@.len() == it.index(),
            forall|k: int|
                0 <= k < it.index() ==> (#[trigger] elements@[k]).name == orig[k].name
                    && elements@[k].if_data@ == valid_only(orig[k].if_data@),
    {
        let mut element = element;
        remove_unknown_ifdata_from_list(&mut element.if_data);
        elements.push(element);
    }
}

/// Cleans a module.
fn remove_unknown_ifdata_from_module(module: &mut Module)
    ensures
        module_cleaned(*old(module), *final(module)),
{
    remove_unknown_ifdata_from_list(&mut module.if_data);
    if let Some(mod_par) = &mut module.mod_par {
        remove_unknown_ifdata_from_elements(&mut mod_par.memory_layout);
        remove_unknown_ifdata_from_elements(&mut mod_par.memory_segment);
    }
    remove_unknown_ifdata_from_elements(&mut module.axis_pts);
    remove_unknown_ifdata_from_elements(&mut module.blob);
    remove_unknown_ifdata_from_elements(&mut module.characteristic);
    remove_unknown_ifdata_from_elements(&mut module.frame);
    remove_unknown_ifdata_from_elements(&mut module.function);
    remove_unknown_ifdata_from_elements(&mut module.group);
    remove_unknown_ifdata_from_elements(&mut module.instance);
    remove_unknown_ifdata_from_elements(&mut module.measurement);
}

/// Removes the IF_DATA blocks that no A2ML specification could read from all
/// the elements of the file; everything else stays as it was.
pub fn remove_unknown_ifdata(a2l_file: &mut A2lFile)
    ensures
        file_cleaned(*old(a2l_file), *final(a2l_file)),
{
    let mut orig_list: Vec<Module> = Vec::new();
    std::mem::swap(&mut a2l_file.project.module, &mut orig_list);
    let ghost orig = orig_list@;
    for module in it: orig_list
        invariant
            it.seq() == orig,
            a2l_file.project.module@.len() == it.index(),
            forall|k: int|
                0 <= k < it.index() ==> module_cleaned(
                    orig[k],
                    #[trigger] a2l_file.project.module@[k],
                ),
    {
        let mut module = module;
        remove_unknown_ifdata_from_module(&mut module);
        a2l_file.project.module.push(module);
    }
}

/// Every IF_DATA block of the list is valid.
pub open spec fn all_valid(l: Seq<IfData>) -> bool {
    forall|j: int| 0 <= j < l.len() ==> (#[trigger] l[j]).ifdata_valid
}

pub open spec fn elements_all_valid(e: Seq<IfDataElement>) -> bool {
    forall|i: int| 0 <= i < e.len() ==> all_valid((#[trigger] e[i]).if_data@)
}

/// Every IF_DATA block of the module and of its elements is valid.
pub open spec fn module_all_valid(m: Module) -> bool {
    &&& all_valid(m.if_data@)
    &&& (m.mod_par matches Some(mp) ==> elements_all_valid(mp.memory_layout@)
        && elements_all_valid(mp.memory_segment@))
    &&& elements_all_valid(m.axis_pts@)
    &&& elements_all_valid(m.blob@)
    &&& elements_all_valid(m.characteristic@)
    &&& elements_all_valid(m.frame@)
    &&& elements_all_valid(m.function@)
    &&& elements_all_valid(m.group@)
    &&& elements_all_valid(m.instance@)
    &&& elements_all_valid(m.measurement@)
}

proof fn lemma_valid_only_all_valid(l: Seq<IfData>)
    ensures
        all_valid(valid_only(l)),
{
    broadcast use vstd::seq_lib::group_filter_ensures;

}

proof fn lemma_valid_only_of_all_valid(l: Seq<IfData>)
    requires
        all_valid(l),
    ensures
        valid_only(l) == l,
    decreases l.len(),
{
    reveal_with_fuel(Seq::<_>::filter, 1);
    if l.len() > 0 {
        assert(all_valid(l.drop_last())) by {
            assert forall|j: int| 0 <= j < l.drop_last().len() implies (#[trigger] l.drop_last()[j]).ifdata_valid by {
                assert(l[j].ifdata_valid);
            }
        }
        lemma_valid_only_of_all_valid(l.drop_last());
        assert(l[l.len() - 1].ifdata_valid);
        assert(l.drop_last().push(l.last()) =~= l);
    }
}

proof fn lemma_elements_cleaned_all_valid(old: Seq<IfDataElement>, new: Seq<IfDataElement>)
    requires
        elements_cleaned(old, new),
    ensures
        elements_all_valid(new),
{
    assert forall|i: int| 0 <= i < new.len() implies all_valid((#[trigger] new[i]).if_data@) by {
        lemma_valid_only_all_valid(old[i].if_data@);
    }
}

proof fn lemma_elements_cleaned_twice(
    a: Seq<IfDataElement>,
    b: Seq<IfDataElement>,
    c: Seq<IfDataElement>,
)
    requires
        elements_cleaned(a, b),
        elements_cleaned(b, c),
    ensures
        elements_cleaned(a, c),
{
    assert forall|i: int| 0 <= i < a.len() implies (#[trigger] c[i]).name == a[i].name
        && c[i].if_data@ == valid_only(a[i].if_data@) by {
        assert(b[i].name == a[i].name);
        lemma_valid_only_all_valid(a[i].if_data@);
        lemma_valid_only_of_all_valid(b[i].if_data@);
    }
}

/// After the removal, every IF_DATA block left in the file is valid.
pub proof fn law_cleaned_file_holds_only_valid_ifdata(old: A2lFile, new: A2lFile)
    requires
        file_cleaned(old, new),
    ensures
        forall|i: int|
            0 <= i < new.project.module@.len() ==> module_all_valid(
                #[trigger] new.project.module@[i],
            ),
{
    assert forall|i: int| 0 <= i < new.project.module@.len() implies module_all_valid(
        #[trigger] new.project.module@[i],
    ) by {
        let o = old.project.module@[i];
        let n = new.project.module@[i];
        assert(module_cleaned(o, n));
        lemma_valid_only_all_valid(o.if_data@);
        if let Some(mp) = n.mod_par {
            let omp = o.mod_par->0;
            lemma_elements_cleaned_all_valid(omp.memory_layout@, mp.memory_layout@);
            lemma_elements_cleaned_all_valid(omp.memory_segment@, mp.memory_segment@);
        }
        lemma_elements_cleaned_all_valid(o.axis_pts@, n.axis_pts@);
        lemma_elements_cleaned_all_valid(o.blob@, n.blob@);
        lemma_elements_cleaned_all_valid(o.characteristic@, n.characteristic@);
        lemma_elements_cleaned_all_valid(o.frame@, n.frame@);
        lemma_elements_cleaned_all_valid(o.function@, n.function@);
        lemma_elements_cleaned_all_valid(o.group@, n.group@);
        lemma_elements_cleaned_all_valid(o.instance@, n.instance@);
        lemma_elements_cleaned_all_valid(o.measurement@, n.measurement@);
    }
}

/// Removing the unknown IF_DATA blocks a second time changes nothing more:
/// the result is still the first file with only its valid blocks kept.
pub proof fn law_removal_is_idempotent(a: A2lFile, b: A2lFile, c: A2lFile)
    requires
        file_cleaned(a, b),
        file_cleaned(b, c),
    ensures
        file_cleaned(a, c),
{
    assert forall|i: int| 0 <= i < a.project.module@.len() implies module_cleaned(
        a.project.module@[i],
        #[trigger] c.project.module@[i],
    ) by {
        let ma = a.project.module@[i];
        let mb = b.project.module@[i];
        let mc = c.project.module@[i];
        assert(module_cleaned(ma, mb));
        assert(module_cleaned(mb, mc));
        lemma_valid_only_all_valid(ma.if_data@);
        lemma_valid_only_of_all_valid(mb.if_data@);
        if let Some(pa) = ma.mod_par {
            let pb = mb.mod_par->0;
            let pc = mc.mod_par->0;
            lemma_elements_cleaned_twice(pa.memory_layout@, pb.memory_layout@, pc.memory_layout@);
            lemma_elements_cleaned_twice(
                pa.memory_segment@,
                pb.memory_segment@,
                pc.memory_segment@,
            );
        }
        lemma_elements_cleaned_twice(ma.axis_pts@, mb.axis_pts@, mc.axis_pts@);
        lemma_elements_cleaned_twice(ma.blob@, mb.blob@, mc.blob@);
        lemma_elements_cleaned_twice(ma.characteristic@, mb.characteristic@, mc.characteristic@);
        lemma_elements_cleaned_twice(ma.frame@, mb.frame@, mc.frame@);
        lemma_elements_cleaned_twice(ma.function@, mb.function@, mc.function@);
        lemma_elements_cleaned_twice(ma.group@, mb.group@, mc.group@);
        lemma_elements_cleaned_twice(ma.instance@, mb.instance@, mc.instance@);
        lemma_elements_cleaned_twice(ma.measurement@, mb.measurement@, mc.measurement@);
    }
}

} // verus!
