//! The init arguments, the application descriptor (`hfn.json`), and its projection
//! into the flat, id-keyed lists handed back to the host.
use vstd::prelude::*;

verus! {

/// The arguments of `init`.
pub struct InitArgs {
    pub dev: bool,
    pub sdk: String,
    pub upstream_id: Option<String>,
    pub pkg_names: Vec<String>,
    pub hfn_config_path: Option<String>,
    pub tokio_work_threads: Option<usize>,
}

/// What `init` hands back to the host.
pub struct InitResult {
    pub upstream_id: String,
    pub packages: Vec<HfnPackage>,
    pub modules: Vec<HfnModule>,
    pub models: Vec<HfnModel>,
    pub hfns: Vec<HfnHfn>,
    pub rpcs: Vec<HfnRpc>,
    pub schemas: Vec<HfnSchema>,
    pub fields: Vec<HfnField>,
}

pub struct HfnPackage {
    pub id: u32,
    pub name: String,
    pub full_name: Option<String>,
}

pub struct HfnModule {
    pub id: u32,
    pub name: String,
    pub package_id: u32,
}

pub struct HfnModel {
    pub id: u32,
    pub name: String,
    pub schema_id: u32,
    pub package_id: u32,
    pub module_id: u32,
}

pub struct HfnHfn {
    pub id: u32,
    pub name: String,
    pub schema_id: u32,
    pub package_id: u32,
    pub module_id: u32,
}

pub struct HfnRpc {
    pub id: u32,
    pub name: String,
    pub req_schema_id: u32,
    pub res_schema_id: u32,
    pub package_id: u32,
}

pub struct HfnSchema {
    pub id: u32,
    pub package_id: u32,
}

pub struct HfnField {
    pub id: u32,
    pub name: String,
    pub t: String,
    pub is_array: bool,
    pub package_id: u32,
    pub schema_id: u32,
}

/// The application descriptor.
pub struct JsonConfig {
    pub name: String,
    pub description: Option<String>,
    pub appid: String,
    pub dev: JsonConfigDev,
    pub created_at: String,
    pub packages: Vec<JsonConfigPackage>,
}

pub struct JsonConfigDev {
    /// Base URL of the devtools relay.
    pub devtools: String,
}

pub struct JsonConfigPackage {
    pub id: u32,
    pub name: String,
    pub full_name: Option<String>,
    pub modules: Vec<JsonConfigPackageModule>,
    pub schemas: Vec<JsonConfigPackageSchema>,
    pub rpcs: Vec<JsonConfigPackageRpc>,
}

pub struct JsonConfigPackageModule {
    pub id: u32,
    pub name: String,
    pub models: Vec<JsonConfigPackageModuleModel>,
    pub hfns: Vec<JsonConfigPackageModuleHfn>,
}

pub struct JsonConfigPackageModuleModel {
    pub id: u32,
    pub name: String,
    pub schema_id: u32,
}

pub struct JsonConfigPackageModuleHfn {
    pub id: u32,
    pub name: String,
    pub schema_id: u32,
}

pub struct JsonConfigPackageRpc {
    pub id: u32,
    pub name: String,
    pub req_schema_id: u32,
    pub res_schema_id: u32,
}

pub struct JsonConfigPackageSchema {
    pub id: u32,
    pub fields: Vec<JsonConfigPackageSchemaField>,
}

pub struct JsonConfigPackageSchemaField {
    pub id: u32,
    pub name: String,
    pub t: String,
    pub is_array: bool,
}

pub ghost struct PackageRow {
    pub id: u32,
    pub name: Seq<char>,
    pub full_name: Option<Seq<char>>,
}

pub ghost struct ModuleRow {
    pub id: u32,
    pub name: Seq<char>,
    pub package_id: u32,
}

/// A model or an hfn: both are named and point to a schema within a module.
pub ghost struct MemberRow {
    pub id: u32,
    pub name: Seq<char>,
    pub schema_id: u32,
    pub package_id: u32,
    pub module_id: u32,
}

pub ghost struct RpcRow {
    pub id: u32,
    pub name: Seq<char>,
    pub req_schema_id: u32,
    pub res_schema_id: u32,
    pub package_id: u32,
}

pub ghost struct SchemaRow {
    pub id: u32,
    pub package_id: u32,
}

pub ghost struct FieldRow {
    pub id: u32,
    pub name: Seq<char>,
    pub t: Seq<char>,
    pub is_array: bool,
    pub package_id: u32,
    pub schema_id: u32,
}

pub open spec fn opt_view(o: Option<String>) -> Option<Seq<char>> {
    match o {
        Some(s) => Some(s@),
        None => None,
    }
}

impl View for HfnPackage {
    type V = PackageRow;

    open spec fn view(&self) -> PackageRow {
        PackageRow { id: self.id, name: self.name@, full_name: opt_view(self.full_name) }
    }
}

impl View for HfnModule {
    type V = ModuleRow;

    open spec fn view(&self) -> ModuleRow {
        ModuleRow { id: self.id, name: self.name@, package_id: self.package_id }
    }
}

impl View for HfnModel {
    type V = MemberRow;

    open spec fn view(&self) -> MemberRow {
        MemberRow {
            id: self.id,
            name: self.name@,
            schema_id: self.schema_id,
            package_id: self.package_id,
            module_id: self.module_id,
        }
    }
}

impl View for HfnHfn {
    type V = MemberRow;

    open spec fn view(&self) -> MemberRow {
        MemberRow {
            id: self.id,
            name: self.name@,
            schema_id: self.schema_id,
            package_id: self.package_id,
            module_id: self.module_id,
        }
    }
}

impl View for HfnRpc {
    type V = RpcRow;

    open spec fn view(&self) -> RpcRow {
        RpcRow {
            id: self.id,
            name: self.name@,
            req_schema_id: self.req_schema_id,
            res_schema_id: self.res_schema_id,
            package_id: self.package_id,
        }
    }
}

impl View for HfnSchema {
    type V = SchemaRow;

    open spec fn view(&self) -> SchemaRow {
        SchemaRow { id: self.id, package_id: self.package_id }
    }
}

impl View for HfnField {
    type V = FieldRow;

    open spec fn view(&self) -> FieldRow {
        FieldRow {
            id: self.id,
            name: self.name@,
            t: self.t@,
            is_array: self.is_array,
            package_id: self.package_id,
            schema_id: self.schema_id,
        }
    }
}

pub open spec fn package_row(p: JsonConfigPackage) -> PackageRow {
    PackageRow { id: p.id, name: p.name@, full_name: opt_view(p.full_name) }
}

pub open spec fn module_row(m: JsonConfigPackageModule, package_id: u32) -> ModuleRow {
    ModuleRow { id: m.id, name: m.name@, package_id }
}

pub open spec fn model_row(x: JsonConfigPackageModuleModel, package_id: u32, module_id: u32) -> MemberRow {
    MemberRow { id: x.id, name: x.name@, schema_id: x.schema_id, package_id, module_id }
}

pub open spec fn hfn_row(x: JsonConfigPackageModuleHfn, package_id: u32, module_id: u32) -> MemberRow {
    MemberRow { id: x.id, name: x.name@, schema_id: x.schema_id, package_id, module_id }
}

pub open spec fn rpc_row(r: JsonConfigPackageRpc, package_id: u32) -> RpcRow {
    RpcRow {
        id: r.id,
        name: r.name@,
        req_schema_id: r.req_schema_id,
        res_schema_id: r.res_schema_id,
        package_id,
    }
}

pub open spec fn schema_row(x: JsonConfigPackageSchema, package_id: u32) -> SchemaRow {
    SchemaRow { id: x.id, package_id }
}

pub open spec fn field_row(f: JsonConfigPackageSchemaField, package_id: u32, schema_id: u32) -> FieldRow {
    FieldRow { id: f.id, name: f.name@, t: f.t@, is_array: f.is_array, package_id, schema_id }
}

/// One row per package.
pub open spec fn package_rows(ps: Seq<JsonConfigPackage>) -> Seq<PackageRow> {
    ps.map_values(|p: JsonConfigPackage| package_row(p))
}

/// One row per module, package by package.
pub open spec fn module_rows(ps: Seq<JsonConfigPackage>) -> Seq<ModuleRow>
    decreases ps.len(),
{
    if ps.len() == 0 {
        seq![]
    } else {
        let p = ps.last();
        module_rows(ps.drop_last()) + p.modules@.map_values(
            |m: JsonConfigPackageModule| module_row(m, p.id),
        )
    }
}

/// One row per model of the modules `ms` of the package `pid`, module by module.
pub open spec fn model_rows_in(ms: Seq<JsonConfigPackageModule>, pid: u32) -> Seq<MemberRow>
    decreases ms.len(),
{
    if ms.len() == 0 {
        seq![]
    } else {
        let m = ms.last();
        model_rows_in(ms.drop_last(), pid) + m.models@.map_values(
            |x: JsonConfigPackageModuleModel| model_row(x, pid, m.id),
        )
    }
}

/// One row per model, package by package.
pub open spec fn model_rows(ps: Seq<JsonConfigPackage>) -> Seq<MemberRow>
    decreases ps.len(),
{
    if ps.len() == 0 {
        seq![]
    } else {
        model_rows(ps.drop_last()) + model_rows_in(ps.last().modules@, ps.last().id)
    }
}

/// One row per hfn of the modules `ms` of the package `pid`, module by module.
pub open spec fn hfn_rows_in(ms: Seq<JsonConfigPackageModule>, pid: u32) -> Seq<MemberRow>
    decreases ms.len(),
{
    if ms.len() == 0 {
        seq![]
    } else {
        let m = ms.last();
        hfn_rows_in(ms.drop_last(), pid) + m.hfns@.map_values(
            |x: JsonConfigPackageModuleHfn| hfn_row(x, pid, m.id),
        )
    }
}

/// One row per hfn, package by package.
pub open spec fn hfn_rows(ps: Seq<JsonConfigPackage>) -> Seq<MemberRow>
    decreases ps.len(),
{
    if ps.len() == 0 {
        seq![]
    } else {
        hfn_rows(ps.drop_last()) + hfn_rows_in(ps.last().modules@, ps.last().id)
    }
}

/// One row per rpc, package by package.
pub open spec fn rpc_rows(ps: Seq<JsonConfigPackage>) -> Seq<RpcRow>
    decreases ps.len(),
{
    if ps.len() == 0 {
        seq![]
    } else {
        let p = ps.last();
        rpc_rows(ps.drop_last()) + p.rpcs@.map_values(|r: JsonConfigPackageRpc| rpc_row(r, p.id))
    }
}

/// One row per schema, package by package.
pub open spec fn schema_rows(ps: Seq<JsonConfigPackage>) -> Seq<SchemaRow>
    decreases ps.len(),
{
    if ps.len() == 0 {
        seq![]
    } else {
        let p = ps.last();
        schema_rows(ps.drop_last()) + p.schemas@.map_values(
            |x: JsonConfigPackageSchema| schema_row(x, p.id),
        )
    }
}

/// One row per field of the schemas `ss` of the package `pid`, schema by schema.
pub open spec fn field_rows_in(ss: Seq<JsonConfigPackageSchema>, pid: u32) -> Seq<FieldRow>
    decreases ss.len(),
{
    if ss.len() == 0 {
        seq![]
    } else {
        let x = ss.last();
        field_rows_in(ss.drop_last(), pid) + x.fields@.map_values(
            |f: JsonConfigPackageSchemaField| field_row(f, pid, x.id),
        )
    }
}

/// One row per field, package by package.
pub open spec fn field_rows(ps: Seq<JsonConfigPackage>) -> Seq<FieldRow>
    decreases ps.len(),
{
    if ps.len() == 0 {
        seq![]
    } else {
        field_rows(ps.drop_last()) + field_rows_in(ps.last().schemas@, ps.last().id)
    }
}

fn clone_opt(o: &Option<String>) -> (r: Option<String>)
    ensures
        opt_view(r) == opt_view(*o),
{
    match o {
        Some(s) => Some(s.clone()),
        None => None,
    }
}

/// Appends one module row per element of `items`.
fn push_module_rows(out: &mut Vec<HfnModule>, items: &Vec<JsonConfigPackageModule>, package_id: u32)
    ensures
        final(out)@.map_values(|x: HfnModule| x@) == old(out)@.map_values(|x: HfnModule| x@) + items@.map_values(
            |e: JsonConfigPackageModule| module_row(e, package_id),
        ),
{
    let ghost start = old(out)@.map_values(|x: HfnModule| x@);
    let mut j: usize = 0;
    while j < items.len()
        invariant
            j <= items@.len(),
            out@.map_values(|x: HfnModule| x@) == start + items@.subrange(0, j as int).map_values(
                |e: JsonConfigPackageModule| module_row(e, package_id),
            ),
        decreases items@.len() - j,
    {
        let e = &items[j];
        let ghost before = out@;
        let row = HfnModule { id: e.id, name: e.name.clone(), package_id };
        assert(row@ == module_row(*e, package_id));
        out.push(row);
        assert(out@ == before.push(row));
        assert(items@.subrange(0, j + 1) =~= items@.subrange(0, j as int).push(items@[j as int]));
        assert(items@.subrange(0, j + 1).map_values(|e: JsonConfigPackageModule| module_row(e, package_id)) =~= items@.subrange(
            0,
            j as int,
        ).map_values(|e: JsonConfigPackageModule| module_row(e, package_id)).push(row@));
        assert(out@.map_values(|x: HfnModule| x@) =~= before.map_values(|x: HfnModule| x@).push(row@));
        j = j + 1;
    }
    assert(items@.subrange(0, j as int) =~= items@);
}

/// Appends one model row per element of `items`.
fn push_model_rows(out: &mut Vec<HfnModel>, items: &Vec<JsonConfigPackageModuleModel>, package_id: u32, module_id: u32)
    ensures
        final(out)@.map_values(|x: HfnModel| x@) == old(out)@.map_values(|x: HfnModel| x@) + items@.map_values(
            |e: JsonConfigPackageModuleModel| model_row(e, package_id, module_id),
        ),
{
    let ghost start = old(out)@.map_values(|x: HfnModel| x@);
    let mut j: usize = 0;
    while j < items.len()
        invariant
            j <= items@.len(),
            out@.map_values(|x: HfnModel| x@) == start + items@.subrange(0, j as int).map_values(
                |e: JsonConfigPackageModuleModel| model_row(e, package_id, module_id),
            ),
        decreases items@.len() - j,
    {
        let e = &items[j];
        let ghost before = out@;
        let row = HfnModel { id: e.id, name: e.name.clone(), schema_id: e.schema_id, package_id, module_id };
        assert(row@ == model_row(*e, package_id, module_id));
        out.push(row);
        assert(out@ == before.push(row));
        assert(items@.subrange(0, j + 1) =~= items@.subrange(0, j as int).push(items@[j as int]));
        assert(items@.subrange(0, j + 1).map_values(|e: JsonConfigPackageModuleModel| model_row(e, package_id, module_id)) =~= items@.subrange(
            0,
            j as int,
        ).map_values(|e: JsonConfigPackageModuleModel| model_row(e, package_id, module_id)).push(row@));
        assert(out@.map_values(|x: HfnModel| x@) =~= before.map_values(|x: HfnModel| x@).push(row@));
        j = j + 1;
    }
    assert(items@.subrange(0, j as int) =~= items@);
}

/// Appends one hfn row per element of `items`.
fn push_hfn_rows(out: &mut Vec<HfnHfn>, items: &Vec<JsonConfigPackageModuleHfn>, package_id: u32, module_id: u32)
    ensures
        final(out)@.map_values(|x: HfnHfn| x@) == old(out)@.map_values(|x: HfnHfn| x@) + items@.map_values(
            |e: JsonConfigPackageModuleHfn| hfn_row(e, package_id, module_id),
        ),
{
    let ghost start = old(out)@.map_values(|x: HfnHfn| x@);
    let mut j: usize = 0;
    while j < items.len()
        invariant
            j <= items@.len(),
            out@.map_values(|x: HfnHfn| x@) == start + items@.subrange(0, j as int).map_values(
                |e: JsonConfigPackageModuleHfn| hfn_row(e, package_id, module_id),
            ),
        decreases items@.len() - j,
    {
        let e = &items[j];
        let ghost before = out@;
        let row = HfnHfn { id: e.id, name: e.name.clone(), schema_id: e.schema_id, package_id, module_id };
        assert(row@ == hfn_row(*e, package_id, module_id));
        out.push(row);
        assert(out@ == before.push(row));
        assert(items@.subrange(0, j + 1) =~= items@.subrange(0, j as int).push(items@[j as int]));
        assert(items@.subrange(0, j + 1).map_values(|e: JsonConfigPackageModuleHfn| hfn_row(e, package_id, module_id)) =~= items@.subrange(
            0,
            j as int,
        ).map_values(|e: JsonConfigPackageModuleHfn| hfn_row(e, package_id, module_id)).push(row@));
        assert(out@.map_values(|x: HfnHfn| x@) =~= before.map_values(|x: HfnHfn| x@).push(row@));
        j = j + 1;
    }
    assert(items@.subrange(0, j as int) =~= items@);
}

/// Appends one rpc row per element of `items`.
fn push_rpc_rows(out: &mut Vec<HfnRpc>, items: &Vec<JsonConfigPackageRpc>, package_id: u32)
    ensures
        final(out)@.map_values(|x: HfnRpc| x@) == old(out)@.map_values(|x: HfnRpc| x@) + items@.map_values(
            |e: JsonConfigPackageRpc| rpc_row(e, package_id),
        ),
{
    let ghost start = old(out)@.map_values(|x: HfnRpc| x@);
    let mut j: usize = 0;
    while j < items.len()
        invariant
            j <= items@.len(),
            out@.map_values(|x: HfnRpc| x@) == start + items@.subrange(0, j as int).map_values(
                |e: JsonConfigPackageRpc| rpc_row(e, package_id),
            ),
        decreases items@.len() - j,
    {
        let e = &items[j];
        let ghost before = out@;
        let row = HfnRpc {
            id: e.id,
            name: e.name.clone(),
            req_schema_id: e.req_schema_id,
            res_schema_id: e.res_schema_id,
            package_id,
        };
        assert(row@ == rpc_row(*e, package_id));
        out.push(row);
        assert(out@ == before.push(row));
        assert(items@.subrange(0, j + 1) =~= items@.subrange(0, j as int).push(items@[j as int]));
        assert(items@.subrange(0, j + 1).map_values(|e: JsonConfigPackageRpc| rpc_row(e, package_id)) =~= items@.subrange(
            0,
            j as int,
        ).map_values(|e: JsonConfigPackageRpc| rpc_row(e, package_id)).push(row@));
        assert(out@.map_values(|x: HfnRpc| x@) =~= before.map_values(|x: HfnRpc| x@).push(row@));
        j = j + 1;
    }
    assert(items@.subrange(0, j as int) =~= items@);
}

/// Appends one schema row per element of `items`.
fn push_schema_rows(out: &mut Vec<HfnSchema>, items: &Vec<JsonConfigPackageSchema>, package_id: u32)
    ensures
        final(out)@.map_values(|x: HfnSchema| x@) == old(out)@.map_values(|x: HfnSchema| x@) + items@.map_values(
            |e: JsonConfigPackageSchema| schema_row(e, package_id),
        ),
{
    let ghost start = old(out)@.map_values(|x: HfnSchema| x@);
    let mut j: usize = 0;
    while j < items.len()
        invariant
            j <= items@.len(),
            out@.map_values(|x: HfnSchema| x@) == start + items@.subrange(0, j as int).map_values(
                |e: JsonConfigPackageSchema| schema_row(e, package_id),
            ),
        decreases items@.len() - j,
    {
        let e = &items[j];
        let ghost before = out@;
        let row = HfnSchema { id: e.id, package_id };
        assert(row@ == schema_row(*e, package_id));
        out.push(row);
        assert(out@ == before.push(row));
        assert(items@.subrange(0, j + 1) =~= items@.subrange(0, j as int).push(items@[j as int]));
        assert(items@.subrange(0, j + 1).map_values(|e: JsonConfigPackageSchema| schema_row(e, package_id)) =~= items@.subrange(
            0,
            j as int,
        ).map_values(|e: JsonConfigPackageSchema| schema_row(e, package_id)).push(row@));
        assert(out@.map_values(|x: HfnSchema| x@) =~= before.map_values(|x: HfnSchema| x@).push(row@));
        j = j + 1;
    }
    assert(items@.subrange(0, j as int) =~= items@);
}

/// Appends one field row per element of `items`.
fn push_field_rows(out: &mut Vec<HfnField>, items: &Vec<JsonConfigPackageSchemaField>, package_id: u32, schema_id: u32)
    ensures
        final(out)@.map_values(|x: HfnField| x@) == old(out)@.map_values(|x: HfnField| x@) + items@.map_values(
            |e: JsonConfigPackageSchemaField| field_row(e, package_id, schema_id),
        ),
{
    let ghost start = old(out)@.map_values(|x: HfnField| x@);
    let mut j: usize = 0;
    while j < items.len()
        invariant
            j <= items@.len(),
            out@.map_values(|x: HfnField| x@) == start + items@.subrange(0, j as int).map_values(
                |e: JsonConfigPackageSchemaField| field_row(e, package_id, schema_id),
            ),
        decreases items@.len() - j,
    {
        let e = &items[j];
        let ghost before = out@;
        let row = HfnField {
            id: e.id,
            name: e.name.clone(),
            t: e.t.clone(),
            is_array: e.is_array,
            package_id,
            schema_id,
        };
        assert(row@ == field_row(*e, package_id, schema_id));
        out.push(row);
        assert(out@ == before.push(row));
        assert(items@.subrange(0, j + 1) =~= items@.subrange(0, j as int).push(items@[j as int]));
        assert(items@.subrange(0, j + 1).map_values(|e: JsonConfigPackageSchemaField| field_row(e, package_id, schema_id)) =~= items@.subrange(
            0,
            j as int,
        ).map_values(|e: JsonConfigPackageSchemaField| field_row(e, package_id, schema_id)).push(row@));
        assert(out@.map_values(|x: HfnField| x@) =~= before.map_values(|x: HfnField| x@).push(row@));
        j = j + 1;
    }
    assert(items@.subrange(0, j as int) =~= items@);
}

/// Appends the module rows of the packages `items`, in order.
fn push_module_rows_of(out: &mut Vec<HfnModule>, items: &Vec<JsonConfigPackage>)
    ensures
        final(out)@.map_values(|x: HfnModule| x@) == old(out)@.map_values(|x: HfnModule| x@) + module_rows(
            items@,
        ),
{
    let ghost start = old(out)@.map_values(|x: HfnModule| x@);
    let mut i: usize = 0;
    while i < items.len()
        invariant
            i <= items@.len(),
            out@.map_values(|x: HfnModule| x@) == start + module_rows(items@.subrange(0, i as int)),
        decreases items@.len() - i,
    {
        let e = &items[i];
        push_module_rows(out, &e.modules, e.id);
        assert(items@.subrange(0, i + 1).drop_last() =~= items@.subrange(0, i as int));
        assert(items@.subrange(0, i + 1).last() == *e);
        assert(out@.map_values(|x: HfnModule| x@) =~= start + module_rows(items@.subrange(0, i + 1)));
        i = i + 1;
    }
    assert(items@.subrange(0, i as int) =~= items@);
}

/// Appends the model rows of the modules `items`, in order.
fn push_model_rows_in(out: &mut Vec<HfnModel>, items: &Vec<JsonConfigPackageModule>, package_id: u32)
    ensures
        final(out)@.map_values(|x: HfnModel| x@) == old(out)@.map_values(|x: HfnModel| x@) + model_rows_in(
            items@, package_id,
        ),
{
    let ghost start = old(out)@.map_values(|x: HfnModel| x@);
    let mut i: usize = 0;
    while i < items.len()
        invariant
            i <= items@.len(),
            out@.map_values(|x: HfnModel| x@) == start + model_rows_in(items@.subrange(0, i as int), package_id),
        decreases items@.len() - i,
    {
        let e = &items[i];
        push_model_rows(out, &e.models, package_id, e.id);
        assert(items@.subrange(0, i + 1).drop_last() =~= items@.subrange(0, i as int));
        assert(items@.subrange(0, i + 1).last() == *e);
        assert(out@.map_values(|x: HfnModel| x@) =~= start + model_rows_in(items@.subrange(0, i + 1), package_id));
        i = i + 1;
    }
    assert(items@.subrange(0, i as int) =~= items@);
}

/// Appends the model rows of the packages `items`, in order.
fn push_model_rows_of(out: &mut Vec<HfnModel>, items: &Vec<JsonConfigPackage>)
    ensures
        final(out)@.map_values(|x: HfnModel| x@) == old(out)@.map_values(|x: HfnModel| x@) + model_rows(
            items@,
        ),
{
    let ghost start = old(out)@.map_values(|x: HfnModel| x@);
    let mut i: usize = 0;
    while i < items.len()
        invariant
            i <= items@.len(),
            out@.map_values(|x: HfnModel| x@) == start + model_rows(items@.subrange(0, i as int)),
        decreases items@.len() - i,
    {
        let e = &items[i];
        push_model_rows_in(out, &e.modules, e.id);
        assert(items@.subrange(0, i + 1).drop_last() =~= items@.subrange(0, i as int));
        assert(items@.subrange(0, i + 1).last() == *e);
        assert(out@.map_values(|x: HfnModel| x@) =~= start + model_rows(items@.subrange(0, i + 1)));
        i = i + 1;
    }
    assert(items@.subrange(0, i as int) =~= items@);
}

/// Appends the hfn rows of the modules `items`, in order.
fn push_hfn_rows_in(out: &mut Vec<HfnHfn>, items: &Vec<JsonConfigPackageModule>, package_id: u32)
    ensures
        final(out)@.map_values(|x: HfnHfn| x@) == old(out)@.map_values(|x: HfnHfn| x@) + hfn_rows_in(
            items@, package_id,
        ),
{
    let ghost start = old(out)@.map_values(|x: HfnHfn| x@);
    let mut i: usize = 0;
    while i < items.len()
        invariant
            i <= items@.len(),
            out@.map_values(|x: HfnHfn| x@) == start + hfn_rows_in(items@.subrange(0, i as int), package_id),
        decreases items@.len() - i,
    {
        let e = &items[i];
        push_hfn_rows(out, &e.hfns, package_id, e.id);
        assert(items@.subrange(0, i + 1).drop_last() =~= items@.subrange(0, i as int));
        assert(items@.subrange(0, i + 1).last() == *e);
        assert(out@.map_values(|x: HfnHfn| x@) =~= start + hfn_rows_in(items@.subrange(0, i + 1), package_id));
        i = i + 1;
    }
    assert(items@.subrange(0, i as int) =~= items@);
}

/// Appends the hfn rows of the packages `items`, in order.
fn push_hfn_rows_of(out: &mut Vec<HfnHfn>, items: &Vec<JsonConfigPackage>)
    ensures
        final(out)@.map_values(|x: HfnHfn| x@) == old(out)@.map_values(|x: HfnHfn| x@) + hfn_rows(
            items@,
        ),
{
    let ghost start = old(out)@.map_values(|x: HfnHfn| x@);
    let mut i: usize = 0;
    while i < items.len()
        invariant
            i <= items@.len(),
            out@.map_values(|x: HfnHfn| x@) == start + hfn_rows(items@.subrange(0, i as int)),
        decreases items@.len() - i,
    {
        let e = &items[i];
        push_hfn_rows_in(out, &e.modules, e.id);
        assert(items@.subrange(0, i + 1).drop_last() =~= items@.subrange(0, i as int));
        assert(items@.subrange(0, i + 1).last() == *e);
        assert(out@.map_values(|x: HfnHfn| x@) =~= start + hfn_rows(items@.subrange(0, i + 1)));
        i = i + 1;
    }
    assert(items@.subrange(0, i as int) =~= items@);
}

/// Appends the rpc rows of the packages `items`, in order.
fn push_rpc_rows_of(out: &mut Vec<HfnRpc>, items: &Vec<JsonConfigPackage>)
    ensures
        final(out)@.map_values(|x: HfnRpc| x@) == old(out)@.map_values(|x: HfnRpc| x@) + rpc_rows(
            items@,
        ),
{
    let ghost start = old(out)@.map_values(|x: HfnRpc| x@);
    let mut i: usize = 0;
    while i < items.len()
        invariant
            i <= items@.len(),
            out@.map_values(|x: HfnRpc| x@) == start + rpc_rows(items@.subrange(0, i as int)),
        decreases items@.len() - i,
    {
        let e = &items[i];
        push_rpc_rows(out, &e.rpcs, e.id);
        assert(items@.subrange(0, i + 1).drop_last() =~= items@.subrange(0, i as int));
        assert(items@.subrange(0, i + 1).last() == *e);
        assert(out@.map_values(|x: HfnRpc| x@) =~= start + rpc_rows(items@.subrange(0, i + 1)));
        i = i + 1;
    }
    assert(items@.subrange(0, i as int) =~= items@);
}

/// Appends the schema rows of the packages `items`, in order.
fn push_schema_rows_of(out: &mut Vec<HfnSchema>, items: &Vec<JsonConfigPackage>)
    ensures
        final(out)@.map_values(|x: HfnSchema| x@) == old(out)@.map_values(|x: HfnSchema| x@) + schema_rows(
            items@,
        ),
{
    let ghost start = old(out)@.map_values(|x: HfnSchema| x@);
    let mut i: usize = 0;
    while i < items.len()
        invariant
            i <= items@.len(),
            out@.map_values(|x: HfnSchema| x@) == start + schema_rows(items@.subrange(0, i as int)),
        decreases items@.len() - i,
    {
        let e = &items[i];
        push_schema_rows(out, &e.schemas, e.id);
        assert(items@.subrange(0, i + 1).drop_last() =~= items@.subrange(0, i as int));
        assert(items@.subrange(0, i + 1).last() == *e);
        assert(out@.map_values(|x: HfnSchema| x@) =~= start + schema_rows(items@.subrange(0, i + 1)));
        i = i + 1;
    }
    assert(items@.subrange(0, i as int) =~= items@);
}

/// Appends the field rows of the schemas `items`, in order.
fn push_field_rows_in(out: &mut Vec<HfnField>, items: &Vec<JsonConfigPackageSchema>, package_id: u32)
    ensures
        final(out)@.map_values(|x: HfnField| x@) == old(out)@.map_values(|x: HfnField| x@) + field_rows_in(
            items@, package_id,
        ),
{
    let ghost start = old(out)@.map_values(|x: HfnField| x@);
    let mut i: usize = 0;
    while i < items.len()
        invariant
            i <= items@.len(),
            out@.map_values(|x: HfnField| x@) == start + field_rows_in(items@.subrange(0, i as int), package_id),
        decreases items@.len() - i,
    {
        let e = &items[i];
        push_field_rows(out, &e.fields, package_id, e.id);
        assert(items@.subrange(0, i + 1).drop_last() =~= items@.subrange(0, i as int));
        assert(items@.subrange(0, i + 1).last() == *e);
        assert(out@.map_values(|x: HfnField| x@) =~= start + field_rows_in(items@.subrange(0, i + 1), package_id));
        i = i + 1;
    }
    assert(items@.subrange(0, i as int) =~= items@);
}

/// Appends the field rows of the packages `items`, in order.
fn push_field_rows_of(out: &mut Vec<HfnField>, items: &Vec<JsonConfigPackage>)
    ensures
        final(out)@.map_values(|x: HfnField| x@) == old(out)@.map_values(|x: HfnField| x@) + field_rows(
            items@,
        ),
{
    let ghost start = old(out)@.map_values(|x: HfnField| x@);
    let mut i: usize = 0;
    while i < items.len()
        invariant
            i <= items@.len(),
            out@.map_values(|x: HfnField| x@) == start + field_rows(items@.subrange(0, i as int)),
        decreases items@.len() - i,
    {
        let e = &items[i];
        push_field_rows_in(out, &e.schemas, e.id);
        assert(items@.subrange(0, i + 1).drop_last() =~= items@.subrange(0, i as int));
        assert(items@.subrange(0, i + 1).last() == *e);
        assert(out@.map_values(|x: HfnField| x@) =~= start + field_rows(items@.subrange(0, i + 1)));
        i = i + 1;
    }
    assert(items@.subrange(0, i as int) =~= items@);
}

/// Appends one row per package.
fn push_package_rows(out: &mut Vec<HfnPackage>, items: &Vec<JsonConfigPackage>)
    ensures
        final(out)@.map_values(|x: HfnPackage| x@) == old(out)@.map_values(|x: HfnPackage| x@)
            + package_rows(items@),
{
    let ghost start = old(out)@.map_values(|x: HfnPackage| x@);
    let mut j: usize = 0;
    while j < items.len()
        invariant
            j <= items@.len(),
            out@.map_values(|x: HfnPackage| x@) == start + package_rows(
                items@.subrange(0, j as int),
            ),
        decreases items@.len() - j,
    {
        let e = &items[j];
        let ghost before = out@;
        let row = HfnPackage { id: e.id, name: e.name.clone(), full_name: clone_opt(&e.full_name) };
        assert(row@ == package_row(*e));
        out.push(row);
        assert(out@ == before.push(row));
        assert(items@.subrange(0, j + 1) =~= items@.subrange(0, j as int).push(items@[j as int]));
        assert(package_rows(items@.subrange(0, j + 1)) =~= package_rows(
            items@.subrange(0, j as int),
        ).push(row@));
        assert(out@.map_values(|x: HfnPackage| x@) =~= before.map_values(|x: HfnPackage| x@).push(
            row@,
        ));
        j = j + 1;
    }
    assert(items@.subrange(0, j as int) =~= items@);
}

impl JsonConfig {
    /// The descriptor as seven flat lists: packages, modules, models, hfns, rpcs,
    /// schemas and fields, each row carrying the ids of what holds it, in the order of
    /// the descriptor.
    pub fn to_hfn_struct(&self) -> (r: (
        Vec<HfnPackage>,
        Vec<HfnModule>,
        Vec<HfnModel>,
        Vec<HfnHfn>,
        Vec<HfnRpc>,
        Vec<HfnSchema>,
        Vec<HfnField>,
    ))
        ensures
            r.0@.map_values(|x: HfnPackage| x@) == package_rows(self.packages@),
            r.1@.map_values(|x: HfnModule| x@) == module_rows(self.packages@),
            r.2@.map_values(|x: HfnModel| x@) == model_rows(self.packages@),
            r.3@.map_values(|x: HfnHfn| x@) == hfn_rows(self.packages@),
            r.4@.map_values(|x: HfnRpc| x@) == rpc_rows(self.packages@),
            r.5@.map_values(|x: HfnSchema| x@) == schema_rows(self.packages@),
            r.6@.map_values(|x: HfnField| x@) == field_rows(self.packages@),
    {
        let mut packages: Vec<HfnPackage> = Vec::new();
        let mut modules: Vec<HfnModule> = Vec::new();
        let mut models: Vec<HfnModel> = Vec::new();
        let mut hfns: Vec<HfnHfn> = Vec::new();
        let mut rpcs: Vec<HfnRpc> = Vec::new();
        let mut schemas: Vec<HfnSchema> = Vec::new();
        let mut fields: Vec<HfnField> = Vec::new();
        push_package_rows(&mut packages, &self.packages);
        push_module_rows_of(&mut modules, &self.packages);
        push_model_rows_of(&mut models, &self.packages);
        push_hfn_rows_of(&mut hfns, &self.packages);
        push_rpc_rows_of(&mut rpcs, &self.packages);
        push_schema_rows_of(&mut schemas, &self.packages);
        push_field_rows_of(&mut fields, &self.packages);
        proof {
            assert(packages@.map_values(|x: HfnPackage| x@) =~= package_rows(self.packages@));
            assert(modules@.map_values(|x: HfnModule| x@) =~= module_rows(self.packages@));
            assert(models@.map_values(|x: HfnModel| x@) =~= model_rows(self.packages@));
            assert(hfns@.map_values(|x: HfnHfn| x@) =~= hfn_rows(self.packages@));
            assert(rpcs@.map_values(|x: HfnRpc| x@) =~= rpc_rows(self.packages@));
            assert(schemas@.map_values(|x: HfnSchema| x@) =~= schema_rows(self.packages@));
            assert(fields@.map_values(|x: HfnField| x@) =~= field_rows(self.packages@));
        }
        (packages, modules, models, hfns, rpcs, schemas, fields)
    }
}

} // verus!
