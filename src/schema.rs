use vstd::prelude::*;
use crate::types::{
    props_map, schema_models, ConvertError, FailureModel, LitDocument, LitNode, Property, PropertyModel,
    Schema, SchemaModel, TypeModel,
};
use crate::types::{keys_distinct, models, PropertyType};
use crate::markdown::{is_renderable, markdown_chars, markdown_of, renderable};
use crate::text::{replace_pair, replace_pair_chars, trim, trim_chars};
use crate::type_grammar::{parse_type, type_of};
use crate::chars::{same_text, string_of};

verus! {

/// A property found by the attribute collector, with the schemas declared
/// inside its own arguments.
pub struct AttributeModel {
    pub name: Seq<char>,
    pub property: PropertyModel,
    pub inner: Seq<SchemaModel>,
}

/// Whether `n` names a property declaration.
pub open spec fn is_attribute_call(n: Seq<char>) -> bool {
    n == "required-attribute"@ || n == "optional-attribute"@
}

/// Whether `n` names a schema declaration.
pub open spec fn is_schema_call(n: Seq<char>) -> bool {
    n == "schema"@ || n == "schema-group"@
}

/// `prefix` put before the list in `rest`, or the failure of `rest`.
pub open spec fn prepend<A>(prefix: Seq<A>, rest: Result<Seq<A>, FailureModel>) -> Result<Seq<A>, FailureModel> {
    match rest {
        Ok(w) => Ok(prefix + w),
        Err(e) => Err(e),
    }
}

/// Hyphens turned into underscores.
pub open spec fn hyphens_to_underscores(s: Seq<char>) -> Seq<char> {
    s.map_values(|c: char| if c == '-' { '_' } else { c })
}

/// `s` without its leading underscores.
pub open spec fn strip_underscores(s: Seq<char>) -> Seq<char>
    decreases s.len(),
{
    if s.len() > 0 && s[0] == '_' {
        strip_underscores(s.drop_first())
    } else {
        s
    }
}

/// A schema identifier made of a written name: backticks, hyphens and spaces
/// become underscores, each pair of underscores met left to right becomes
/// one (once, not repeatedly), and leading underscores are dropped.
pub open spec fn sanitize(s: Seq<char>) -> Seq<char> {
    strip_underscores(
        replace_pair(s.map_values(|c: char| if c == '`' || c == '-' || c == ' ' { '_' } else { c }), '_', '_'),
    )
}

/// The property that a declaration call `kind` with arguments `args` makes:
/// its name, type and documentation come from the first three arguments.
pub open spec fn property_of(kind: Seq<char>, args: Seq<Vec<LitNode>>) -> Result<(Seq<char>, PropertyModel), FailureModel> {
    if args.len() >= 3 && renderable(args[0]@) && renderable(args[1]@) && renderable(args[2]@) {
        let ty = trim(markdown_of(args[1]@));
        match type_of(hyphens_to_underscores(ty)) {
            Ok(t) => Ok((
                trim(markdown_of(args[0]@)),
                PropertyModel {
                    required: kind == "required-attribute"@,
                    docs: trim(markdown_of(args[2]@)),
                    prop_type: t,
                    list: ty.len() > 0 && ty[0] == '[',
                },
            )),
            Err(pos) => Err(FailureModel::Type(hyphens_to_underscores(ty), pos)),
        }
    } else {
        Err(FailureModel::Arguments(kind))
    }
}

/// The properties declared anywhere in `nodes`, outside nested schemas, in
/// document order.
pub open spec fn attributes_of(nodes: Seq<LitNode>) -> Result<Seq<AttributeModel>, FailureModel>
    decreases nodes,
{
    if nodes.len() == 0 {
        Ok(seq![])
    } else {
        match node_attributes(nodes[0]) {
            Ok(a) => prepend(a, attributes_of(nodes.drop_first())),
            Err(e) => Err(e),
        }
    }
}

/// The properties declared in one node.
pub open spec fn node_attributes(n: LitNode) -> Result<Seq<AttributeModel>, FailureModel>
    decreases n,
{
    match n {
        LitNode::Fn(name, args) => {
            if is_attribute_call(name@) {
                match property_of(name@, args@) {
                    Ok((pn, p)) => match schemas_in_args(args@) {
                        Ok(inner) => Ok(seq![AttributeModel { name: pn, property: p, inner }]),
                        Err(e) => Err(e),
                    },
                    Err(e) => Err(e),
                }
            } else if is_schema_call(name@) {
                Ok(seq![])
            } else {
                attributes_in_args(args@)
            }
        },
        _ => Ok(seq![]),
    }
}

/// The properties declared in each argument, in order.
pub open spec fn attributes_in_args(args: Seq<Vec<LitNode>>) -> Result<Seq<AttributeModel>, FailureModel>
    decreases args,
{
    if args.len() == 0 {
        Ok(seq![])
    } else {
        match attributes_of(args[0]@) {
            Ok(a) => prepend(a, attributes_in_args(args.drop_first())),
            Err(e) => Err(e),
        }
    }
}

/// The schemas found in `nodes`, in document order.
pub open spec fn schemas_of(nodes: Seq<LitNode>) -> Result<Seq<SchemaModel>, FailureModel>
    decreases nodes,
{
    if nodes.len() == 0 {
        Ok(seq![])
    } else {
        match node_schemas(nodes[0]) {
            Ok(a) => prepend(a, schemas_of(nodes.drop_first())),
            Err(e) => Err(e),
        }
    }
}

/// The index of the argument that holds a schema's properties.
pub open spec fn attribute_arg(kind: Seq<char>) -> int {
    if kind == "schema"@ { 1 } else { 2 }
}

/// The schemas found in one node: a schema declaration yields itself, then
/// the schemas inside its properties, then those inside its arguments.
pub open spec fn node_schemas(n: LitNode) -> Result<Seq<SchemaModel>, FailureModel>
    decreases n,
{
    match n {
        LitNode::Fn(name, args) => {
            if is_schema_call(name@) {
                let k = attribute_arg(name@);
                if args.len() > k && renderable(args[0]@) {
                    match attributes_of(args[k]@) {
                        Ok(attrs) => match schemas_in_args(args@) {
                            Ok(children) => Ok(assemble(
                                sanitize(trim(markdown_of(args[0]@))),
                                name@ == "schema-group"@,
                                attrs,
                                children,
                            )),
                            Err(e) => Err(e),
                        },
                        Err(e) => Err(e),
                    }
                } else {
                    Err(FailureModel::Arguments(name@))
                }
            } else if is_attribute_call(name@) {
                Ok(seq![])
            } else {
                schemas_in_args(args@)
            }
        },
        _ => Ok(seq![]),
    }
}

/// The schemas found in each argument, in order.
pub open spec fn schemas_in_args(args: Seq<Vec<LitNode>>) -> Result<Seq<SchemaModel>, FailureModel>
    decreases args,
{
    if args.len() == 0 {
        Ok(seq![])
    } else {
        match schemas_of(args[0]@) {
            Ok(a) => prepend(a, schemas_in_args(args.drop_first())),
            Err(e) => Err(e),
        }
    }
}

/// The properties of a list of found attributes; a later one replaces an
/// earlier one of the same name.
pub open spec fn attrs_map(attrs: Seq<AttributeModel>) -> Map<Seq<char>, PropertyModel>
    decreases attrs.len(),
{
    if attrs.len() == 0 {
        Map::empty()
    } else {
        attrs_map(attrs.drop_last()).insert(attrs.last().name, attrs.last().property)
    }
}

/// The schemas declared inside the attributes, in order.
pub open spec fn inner_schemas(attrs: Seq<AttributeModel>) -> Seq<SchemaModel>
    decreases attrs.len(),
{
    if attrs.len() == 0 {
        seq![]
    } else {
        inner_schemas(attrs.drop_last()) + attrs.last().inner
    }
}

/// A child schema after its parent's properties `own` reach it: a group
/// member takes them all, the parent's winning on a shared name.
pub open spec fn with_parent(child: SchemaModel, own: Map<Seq<char>, PropertyModel>) -> SchemaModel {
    if child.is_group_member {
        SchemaModel { properties: child.properties.union_prefer_right(own), ..child }
    } else {
        child
    }
}

/// The names of the group members among `children`, in order.
pub open spec fn member_names(children: Seq<SchemaModel>) -> Seq<Seq<char>>
    decreases children.len(),
{
    if children.len() == 0 {
        seq![]
    } else if children.last().is_group_member {
        member_names(children.drop_last()).push(children.last().name)
    } else {
        member_names(children.drop_last())
    }
}

/// The records of one schema declaration: the schema itself, the schemas
/// inside its properties, then its children with the properties passed on
/// to the group members. A schema with group members keeps no properties.
pub open spec fn assemble(
    name: Seq<char>,
    group: bool,
    attrs: Seq<AttributeModel>,
    children: Seq<SchemaModel>,
) -> Seq<SchemaModel> {
    let own = attrs_map(attrs);
    let merged = children.map_values(|c: SchemaModel| with_parent(c, own));
    let members = member_names(children);
    seq![SchemaModel {
        name,
        properties: if members.len() > 0 { Map::empty() } else { own },
        is_group_member: group,
        group_members: members,
    }] + inner_schemas(attrs) + merged
}

/// A property found in a document, with the schemas declared inside its
/// arguments.
pub struct Attribute {
    pub name: String,
    pub property: Property,
    pub inner: Vec<Schema>,
}

impl Attribute {
    /// The value of this attribute.
    pub open spec fn model(self) -> AttributeModel {
        AttributeModel { name: self.name@, property: self.property.model(), inner: schema_models(self.inner@) }
    }
}

/// The values of a list of attributes.
pub open spec fn attribute_models(v: Seq<Attribute>) -> Seq<AttributeModel> {
    v.map_values(|a: Attribute| a.model())
}

/// Whether every schema has distinct property names.
pub open spec fn all_wf(v: Seq<Schema>) -> bool {
    forall|i: int| 0 <= i < v.len() ==> (#[trigger] v[i]).wf()
}

/// Whether every attribute's inner schemas have distinct property names.
pub open spec fn attrs_wf(v: Seq<Attribute>) -> bool {
    forall|i: int| 0 <= i < v.len() ==> all_wf((#[trigger] v[i]).inner@)
}

/// Whether a found list of schemas, or the error, is the one `m` gives.
pub open spec fn schemas_match(r: Result<Vec<Schema>, ConvertError>, m: Result<Seq<SchemaModel>, FailureModel>) -> bool {
    match r {
        Ok(v) => m == Ok::<Seq<SchemaModel>, FailureModel>(schema_models(v@)) && all_wf(v@),
        Err(e) => m == Err::<Seq<SchemaModel>, FailureModel>(e.model()),
    }
}

/// Whether a found list of attributes, or the error, is the one `m` gives.
pub open spec fn attributes_match(r: Result<Vec<Attribute>, ConvertError>, m: Result<Seq<AttributeModel>, FailureModel>) -> bool {
    match r {
        Ok(v) => m == Ok::<Seq<AttributeModel>, FailureModel>(attribute_models(v@)) && attrs_wf(v@),
        Err(e) => m == Err::<Seq<AttributeModel>, FailureModel>(e.model()),
    }
}

fn copy_type(t: &PropertyType) -> (r: PropertyType)
    ensures
        r.model() == t.model(),
    decreases t,
{
    match t {
        PropertyType::Ref(n) => PropertyType::Ref(n.clone()),
        PropertyType::ArrayOf(b) => PropertyType::ArrayOf(Box::new(copy_type(b))),
        PropertyType::OneOf(ts) => {
            let mut v: Vec<PropertyType> = Vec::new();
            let mut j: usize = 0;
            while j < ts.len()
                invariant
                    *t == PropertyType::OneOf(*ts),
                    j <= ts@.len(),
                    models(v@) == models(ts@.subrange(0, j as int)),
                decreases ts@.len() - j,
            {
                proof {
                    let tt = *t;
                    assert(decreases_to!(tt => tt->OneOf_0));
                }
                assert(decreases_to!(*ts => ts[j as int]));
                let c = copy_type(&ts[j]);
                let ghost v0 = v@;
                v.push(c);
                assert(v@.drop_last() == v0);
                assert(ts@.subrange(0, j + 1).drop_last() == ts@.subrange(0, j as int));
                j = j + 1;
            }
            assert(ts@.subrange(0, ts@.len() as int) == ts@);
            PropertyType::OneOf(v)
        },
        PropertyType::Dict => PropertyType::Dict,
        PropertyType::Constant(c) => PropertyType::Constant(c.clone()),
    }
}

fn copy_property(p: &Property) -> (r: Property)
    ensures
        r.model() == p.model(),
{
    Property { required: p.required, docs: p.docs.clone(), prop_type: copy_type(&p.prop_type), list: p.list }
}

fn copy_schema(s: &Schema) -> (r: Schema)
    requires
        s.wf(),
    ensures
        r.model() == s.model(),
        r.wf(),
{
    let mut props: Vec<(String, Property)> = Vec::new();
    let mut j: usize = 0;
    while j < s.properties.len()
        invariant
            j <= s.properties@.len(),
            props@.len() == j,
            forall|k: int| 0 <= k < j ==> (#[trigger] props@[k]).0@ == s.properties@[k].0@
                && props@[k].1.model() == s.properties@[k].1.model(),
        decreases s.properties@.len() - j,
    {
        let e = &s.properties[j];
        props.push((e.0.clone(), copy_property(&e.1)));
        j = j + 1;
    }
    proof {
        lemma_props_map_same(props@, s.properties@);
    }
    let mut members: Vec<String> = Vec::new();
    let mut k: usize = 0;
    while k < s.group_members.len()
        invariant
            k <= s.group_members@.len(),
            members@.len() == k,
            forall|i: int| 0 <= i < k ==> (#[trigger] members@[i])@ == s.group_members@[i]@,
        decreases s.group_members@.len() - k,
    {
        members.push(s.group_members[k].clone());
        k = k + 1;
    }
    assert(members@.map_values(|n: String| n@) =~= s.group_members@.map_values(|n: String| n@));
    Schema {
        schema_name: s.schema_name.clone(),
        properties: props,
        is_group_member: s.is_group_member,
        group_members: members,
    }
}

proof fn lemma_props_map_same(a: Seq<(String, Property)>, b: Seq<(String, Property)>)
    requires
        a.len() == b.len(),
        forall|k: int| 0 <= k < a.len() ==> (#[trigger] a[k]).0@ == b[k].0@ && a[k].1.model() == b[k].1.model(),
    ensures
        props_map(a) == props_map(b),
        keys_distinct(a) == keys_distinct(b),
    decreases a.len(),
{
    if a.len() > 0 {
        lemma_props_map_same(a.drop_last(), b.drop_last());
        assert(a.last() == a[a.len() - 1]);
    }
    assert(keys_distinct(a) == keys_distinct(b)) by {
        if keys_distinct(a) {
            assert forall|i: int, j: int| 0 <= i < j < b.len() implies (#[trigger] b[i]).0@ != (#[trigger] b[j]).0@ by {
                assert(a[i].0@ != a[j].0@);
            };
        }
        if keys_distinct(b) {
            assert forall|i: int, j: int| 0 <= i < j < a.len() implies (#[trigger] a[i]).0@ != (#[trigger] a[j]).0@ by {
                assert(b[i].0@ != b[j].0@);
            };
        }
    };
}

proof fn lemma_props_map_update(v: Seq<(String, Property)>, j: int, e: (String, Property))
    requires
        keys_distinct(v),
        0 <= j < v.len(),
        v[j].0@ == e.0@,
    ensures
        props_map(v.update(j, e)) == props_map(v).insert(e.0@, e.1.model()),
    decreases v.len(),
{
    let w = v.update(j, e);
    assert(w.drop_last() == if j == v.len() - 1 { v.drop_last() } else { v.drop_last().update(j, e) });
    if j < v.len() - 1 {
        lemma_props_map_update(v.drop_last(), j, e);
        assert(v.last().0@ != e.0@) by {
            assert(v[j].0@ != v[v.len() - 1].0@);
        };
    }
    assert(props_map(w) =~= props_map(v).insert(e.0@, e.1.model()));
}

/// Sets the entry named `k` to `p`, adding it at the end where no entry has
/// that name.
fn insert_entry(v: &mut Vec<(String, Property)>, k: String, p: Property)
    requires
        keys_distinct(old(v)@),
    ensures
        keys_distinct(final(v)@),
        props_map(final(v)@) == props_map(old(v)@).insert(k@, p.model()),
{
    let mut j: usize = 0;
    while j < v.len()
        invariant
            v@ == old(v)@,
            keys_distinct(v@),
            j <= v@.len(),
            forall|i: int| 0 <= i < j ==> (#[trigger] v@[i]).0@ != k@,
        decreases v@.len() - j,
    {
        if same_text(v[j].0.as_str(), k.as_str()) {
            let ghost e = (k, p);
            proof {
                lemma_props_map_update(v@, j as int, e);
            }
            let _ = v.remove(j);
            v.insert(j, (k, p));
            assert(v@ =~= old(v)@.update(j as int, e));
            assert forall|a: int, b: int| 0 <= a < b < v@.len() implies (#[trigger] v@[a]).0@ != (#[trigger] v@[b]).0@ by {
                assert(v@[a].0@ == old(v)@[a].0@);
                assert(v@[b].0@ == old(v)@[b].0@);
                assert(old(v)@[a].0@ != old(v)@[b].0@);
            };
            return;
        }
        j = j + 1;
    }
    let ghost v0 = v@;
    v.push((k, p));
    assert(v@.drop_last() == v0);
}

/// Turns a written name into a schema identifier.
fn sanitize_chars(s: &Vec<char>) -> (r: Vec<char>)
    ensures
        r@ == sanitize(s@),
{
    let mut a: Vec<char> = Vec::new();
    let mut i: usize = 0;
    while i < s.len()
        invariant
            i <= s@.len(),
            a@ == s@.subrange(0, i as int).map_values(|c: char| if c == '`' || c == '-' || c == ' ' { '_' } else { c }),
        decreases s@.len() - i,
    {
        let c = s[i];
        a.push(if c == '`' || c == '-' || c == ' ' { '_' } else { c });
        assert(a@ =~= s@.subrange(0, i + 1).map_values(|c: char| if c == '`' || c == '-' || c == ' ' { '_' } else { c }));
        i = i + 1;
    }
    assert(s@.subrange(0, i as int) == s@);
    let b = replace_pair_chars(&a, '_', '_');
    let mut k: usize = 0;
    assert(b@.subrange(0, b@.len() as int) == b@);
    while k < b.len() && b[k] == '_'
        invariant
            k <= b@.len(),
            strip_underscores(b@) == strip_underscores(b@.subrange(k as int, b@.len() as int)),
        decreases b@.len() - k,
    {
        assert(b@.subrange(k as int, b@.len() as int).drop_first() == b@.subrange(k + 1, b@.len() as int));
        k = k + 1;
    }
    let mut r: Vec<char> = Vec::new();
    let mut m: usize = k;
    while m < b.len()
        invariant
            k <= m <= b@.len(),
            r@ == b@.subrange(k as int, m as int),
        decreases b@.len() - m,
    {
        r.push(b[m]);
        m = m + 1;
    }
    r
}

fn hyphens_chars(s: &Vec<char>) -> (r: Vec<char>)
    ensures
        r@ == hyphens_to_underscores(s@),
{
    let mut a: Vec<char> = Vec::new();
    let mut i: usize = 0;
    while i < s.len()
        invariant
            i <= s@.len(),
            a@ == hyphens_to_underscores(s@.subrange(0, i as int)),
        decreases s@.len() - i,
    {
        let c = s[i];
        a.push(if c == '-' { '_' } else { c });
        assert(a@ =~= hyphens_to_underscores(s@.subrange(0, i + 1)));
        i = i + 1;
    }
    assert(s@.subrange(0, i as int) == s@);
    a
}

/// Reads the property that declaration call `kind` makes.
fn property_from(kind: &String, args: &Vec<Vec<LitNode>>) -> (r: Result<(String, Property), ConvertError>)
    ensures
        match r {
            Ok((n, p)) => property_of(kind@, args@) == Ok::<(Seq<char>, PropertyModel), FailureModel>((n@, p.model())),
            Err(e) => property_of(kind@, args@) == Err::<(Seq<char>, PropertyModel), FailureModel>(e.model()),
        },
{
    if args.len() < 3 || !is_renderable(&args[0]) || !is_renderable(&args[1]) || !is_renderable(&args[2]) {
        return Err(ConvertError::Arguments(kind.clone()));
    }
    let name = trim_chars(&markdown_chars(&args[0]));
    let ty = trim_chars(&markdown_chars(&args[1]));
    let list = ty.len() > 0 && ty[0] == '[';
    let docs = trim_chars(&markdown_chars(&args[2]));
    let text = string_of(&hyphens_chars(&ty));
    match parse_type(text.as_str()) {
        Ok(t) => Ok((
            string_of(&name),
            Property {
                required: same_text(kind.as_str(), "required-attribute"),
                docs: string_of(&docs),
                prop_type: t,
                list,
            },
        )),
        Err(e) => Err(ConvertError::Type(e)),
    }
}

/// Builds the records of one schema declaration from its name, its kind,
/// the attributes found in it and the schemas found in its arguments.
fn assemble_records(name: String, group: bool, attrs: Vec<Attribute>, children: Vec<Schema>) -> (r: Vec<Schema>)
    requires
        all_wf(children@),
        attrs_wf(attrs@),
    ensures
        schema_models(r@) == assemble(name@, group, attribute_models(attrs@), schema_models(children@)),
        all_wf(r@),
{
    let ghost am = attribute_models(attrs@);
    let mut own: Vec<(String, Property)> = Vec::new();
    let mut inner: Vec<Schema> = Vec::new();
    let mut i: usize = 0;
    while i < attrs.len()
        invariant
            i <= attrs@.len(),
            am == attribute_models(attrs@),
            attrs_wf(attrs@),
            keys_distinct(own@),
            props_map(own@) == attrs_map(am.subrange(0, i as int)),
            schema_models(inner@) == inner_schemas(am.subrange(0, i as int)),
            all_wf(inner@),
        decreases attrs@.len() - i,
    {
        let a = &attrs[i];
        assert(am.subrange(0, i + 1).drop_last() == am.subrange(0, i as int));
        assert(am.subrange(0, i + 1).last() == a.model());
        insert_entry(&mut own, a.name.clone(), copy_property(&a.property));
        let ghost inner0 = schema_models(inner@);
        assert(all_wf(a.inner@));
        let mut k: usize = 0;
        while k < a.inner.len()
            invariant
                k <= a.inner@.len(),
                all_wf(a.inner@),
                all_wf(inner@),
                schema_models(inner@) == inner0 + schema_models(a.inner@.subrange(0, k as int)),
            decreases a.inner@.len() - k,
        {
            let c = copy_schema(&a.inner[k]);
            let ghost before = inner@;
            inner.push(c);
            assert(schema_models(inner@) =~= schema_models(before).push(c.model()));
            assert(schema_models(a.inner@.subrange(0, k + 1)) =~= schema_models(a.inner@.subrange(0, k as int)).push(c.model()));
            k = k + 1;
        }
        assert(a.inner@.subrange(0, k as int) == a.inner@);
        i = i + 1;
    }
    assert(am.subrange(0, i as int) == am);
    let ghost own_map = attrs_map(am);
    let ghost cm = schema_models(children@);
    let mut merged: Vec<Schema> = Vec::new();
    let mut members: Vec<String> = Vec::new();
    let mut j: usize = 0;
    while j < children.len()
        invariant
            j <= children@.len(),
            cm == schema_models(children@),
            all_wf(children@),
            keys_distinct(own@),
            props_map(own@) == own_map,
            schema_models(merged@) == cm.subrange(0, j as int).map_values(|c: SchemaModel| with_parent(c, own_map)),
            members@.map_values(|n: String| n@) == member_names(cm.subrange(0, j as int)),
            all_wf(merged@),
        decreases children@.len() - j,
    {
        let mut c = copy_schema(&children[j]);
        let ghost c0 = c.model();
        assert(cm.subrange(0, j + 1).drop_last() == cm.subrange(0, j as int));
        assert(cm.subrange(0, j + 1).last() == c0);
        let ghost names0 = members@;
        if c.is_group_member {
            members.push(c.schema_name.clone());
            assert(members@.map_values(|n: String| n@) =~= names0.map_values(|n: String| n@).push(c0.name));
            let ghost before = props_map(c.properties@);
            let mut props = c.properties;
            let mut k: usize = 0;
            while k < own.len()
                invariant
                    k <= own@.len(),
                    keys_distinct(props@),
                    props_map(props@) == before.union_prefer_right(props_map(own@.subrange(0, k as int))),
                decreases own@.len() - k,
            {
                let ghost p0 = props_map(props@);
                insert_entry(&mut props, own[k].0.clone(), copy_property(&own[k].1));
                assert(own@.subrange(0, k + 1).drop_last() == own@.subrange(0, k as int));
                assert(props_map(props@) =~= before.union_prefer_right(props_map(own@.subrange(0, k + 1))));
                k = k + 1;
            }
            assert(own@.subrange(0, k as int) == own@);
            c = Schema { properties: props, ..c };
        }
        assert(c.model() == with_parent(c0, own_map));
        let ghost merged0 = merged@;
        merged.push(c);
        assert(schema_models(merged@) =~= schema_models(merged0).push(c.model()));
        assert(cm.subrange(0, j + 1).map_values(|c: SchemaModel| with_parent(c, own_map))
            =~= cm.subrange(0, j as int).map_values(|c: SchemaModel| with_parent(c, own_map)).push(with_parent(c0, own_map)));
        j = j + 1;
    }
    assert(cm.subrange(0, j as int) == cm);
    let props = if members.len() > 0 { Vec::new() } else { own };
    let this = Schema { schema_name: name, properties: props, is_group_member: group, group_members: members };
    let mut r: Vec<Schema> = Vec::new();
    r.push(this);
    let ghost m_inner = schema_models(inner@);
    let ghost m_merged = schema_models(merged@);
    r.append(&mut inner);
    r.append(&mut merged);
    assert(schema_models(r@) =~= seq![this.model()] + m_inner + m_merged);
    r
}

proof fn lemma_prepend_assoc<A>(a: Seq<A>, b: Seq<A>, x: Result<Seq<A>, FailureModel>)
    ensures
        prepend(a, prepend(b, x)) == prepend(a + b, x),
        prepend(Seq::<A>::empty(), x) == x,
{
    match x {
        Ok(w) => {
            assert(a + (b + w) =~= (a + b) + w);
            assert(Seq::<A>::empty() + w =~= w);
        },
        Err(_) => {},
    }
}

/// The schemas found in `nodes`.
fn schemas_in(nodes: &Vec<LitNode>) -> (r: Result<Vec<Schema>, ConvertError>)
    ensures
        schemas_match(r, schemas_of(nodes@)),
    decreases nodes, 0int,
{
    let n = nodes.len();
    let mut out: Vec<Schema> = Vec::new();
    let mut i: usize = 0;
    assert(nodes@.subrange(0, n as int) == nodes@);
    while i < n
        invariant
            n == nodes@.len(),
            i <= n,
            schemas_of(nodes@) == prepend(schema_models(out@), schemas_of(nodes@.subrange(i as int, n as int))),
            all_wf(out@),
        decreases n - i,
    {
        let ghost rest = nodes@.subrange(i as int, n as int);
        assert(rest[0] == nodes@[i as int]);
        assert(rest.drop_first() == nodes@.subrange(i + 1, n as int));
        let ghost out0 = out@;
        proof {
            lemma_prepend_assoc(schema_models(out@), Seq::<SchemaModel>::empty(), schemas_of(rest.drop_first()));
            match node_schemas(nodes@[i as int]) {
                Ok(a) => lemma_prepend_assoc(schema_models(out@), a, schemas_of(rest.drop_first())),
                Err(_) => {},
            }
        }
        match &nodes[i] {
            LitNode::Fn(name, args) => {
                proof {
                    let nd = nodes@[i as int];
                    assert(decreases_to!(*nodes => nodes@[i as int]));
                    assert(decreases_to!(nd => nd->Fn_1));
                }
                assert(decreases_to!(*nodes => *args));
                match schemas_call(name, args) {
                    Ok(found) => {
                        let mut found = found;
                        let ghost fm = schema_models(found@);
                        out.append(&mut found);
                        assert(schema_models(out@) =~= schema_models(out0) + fm);
                    },
                    Err(e) => {
                        return Err(e);
                    },
                }
            },
            _ => {},
        }
        i = i + 1;
    }
    assert(nodes@.subrange(n as int, n as int) == Seq::<LitNode>::empty());
    assert(schema_models(out@) + Seq::<SchemaModel>::empty() == schema_models(out@));
    Ok(out)
}

/// The schemas found in a call: a schema declaration is assembled, a
/// property declaration is left to the attribute collector, any other call
/// is searched through its arguments.
fn schemas_call(name: &String, args: &Vec<Vec<LitNode>>) -> (r: Result<Vec<Schema>, ConvertError>)
    ensures
        schemas_match(r, node_schemas(LitNode::Fn(*name, *args))),
    decreases args, 3int,
{
    let is_schema = same_text(name.as_str(), "schema");
    let is_group = same_text(name.as_str(), "schema-group");
    if is_schema || is_group {
        let k: usize = if is_schema { 1 } else { 2 };
        if args.len() <= k || !is_renderable(&args[0]) {
            return Err(ConvertError::Arguments(name.clone()));
        }
        let schema_name = sanitize_chars(&trim_chars(&markdown_chars(&args[0])));
        assert(decreases_to!(*args => args[k as int]));
        let attrs = match attributes_in(&args[k]) {
            Ok(a) => a,
            Err(e) => {
                return Err(e);
            },
        };
        let children = match schemas_args(args) {
            Ok(c) => c,
            Err(e) => {
                return Err(e);
            },
        };
        Ok(assemble_records(string_of(&schema_name), is_group, attrs, children))
    } else if same_text(name.as_str(), "required-attribute") || same_text(name.as_str(), "optional-attribute") {
        let v: Vec<Schema> = Vec::new();
        assert(schema_models(v@) =~= Seq::<SchemaModel>::empty());
        Ok(v)
    } else {
        schemas_args(args)
    }
}

/// The schemas found in each argument, in order.
fn schemas_args(args: &Vec<Vec<LitNode>>) -> (r: Result<Vec<Schema>, ConvertError>)
    ensures
        schemas_match(r, schemas_in_args(args@)),
    decreases args, 1int,
{
    let n = args.len();
    let mut out: Vec<Schema> = Vec::new();
    let mut j: usize = 0;
    assert(args@.subrange(0, n as int) == args@);
    while j < n
        invariant
            n == args@.len(),
            j <= n,
            schemas_in_args(args@) == prepend(schema_models(out@), schemas_in_args(args@.subrange(j as int, n as int))),
            all_wf(out@),
        decreases n - j,
    {
        let ghost rest = args@.subrange(j as int, n as int);
        assert(rest[0] == args@[j as int]);
        assert(rest.drop_first() == args@.subrange(j + 1, n as int));
        let ghost out0 = out@;
        proof {
            match schemas_of(args@[j as int]@) {
                Ok(a) => lemma_prepend_assoc(schema_models(out@), a, schemas_in_args(rest.drop_first())),
                Err(_) => {},
            }
        }
        assert(decreases_to!(*args => args[j as int]));
        match schemas_in(&args[j]) {
            Ok(found) => {
                let mut found = found;
                let ghost fm = schema_models(found@);
                out.append(&mut found);
                assert(schema_models(out@) =~= schema_models(out0) + fm);
            },
            Err(e) => {
                return Err(e);
            },
        }
        j = j + 1;
    }
    assert(args@.subrange(n as int, n as int) == Seq::<Vec<LitNode>>::empty());
    assert(schema_models(out@) + Seq::<SchemaModel>::empty() == schema_models(out@));
    Ok(out)
}

/// The attributes declared in `nodes`, outside nested schemas.
fn attributes_in(nodes: &Vec<LitNode>) -> (r: Result<Vec<Attribute>, ConvertError>)
    ensures
        attributes_match(r, attributes_of(nodes@)),
    decreases nodes, 0int,
{
    let n = nodes.len();
    let mut out: Vec<Attribute> = Vec::new();
    let mut i: usize = 0;
    assert(nodes@.subrange(0, n as int) == nodes@);
    while i < n
        invariant
            n == nodes@.len(),
            i <= n,
            attributes_of(nodes@) == prepend(attribute_models(out@), attributes_of(nodes@.subrange(i as int, n as int))),
            attrs_wf(out@),
        decreases n - i,
    {
        let ghost rest = nodes@.subrange(i as int, n as int);
        assert(rest[0] == nodes@[i as int]);
        assert(rest.drop_first() == nodes@.subrange(i + 1, n as int));
        let ghost out0 = out@;
        proof {
            lemma_prepend_assoc(attribute_models(out@), Seq::<AttributeModel>::empty(), attributes_of(rest.drop_first()));
            match node_attributes(nodes@[i as int]) {
                Ok(a) => lemma_prepend_assoc(attribute_models(out@), a, attributes_of(rest.drop_first())),
                Err(_) => {},
            }
        }
        match &nodes[i] {
            LitNode::Fn(name, args) => {
                proof {
                    let nd = nodes@[i as int];
                    assert(decreases_to!(*nodes => nodes@[i as int]));
                    assert(decreases_to!(nd => nd->Fn_1));
                }
                assert(decreases_to!(*nodes => *args));
                match attributes_call(name, args) {
                    Ok(found) => {
                        let mut found = found;
                        let ghost fm = attribute_models(found@);
                        let ghost f0 = found@;
                        out.append(&mut found);
                        assert(attribute_models(out@) =~= attribute_models(out0) + fm);
                        assert(out@ == out0 + f0);
                    },
                    Err(e) => {
                        return Err(e);
                    },
                }
            },
            _ => {},
        }
        i = i + 1;
    }
    assert(nodes@.subrange(n as int, n as int) == Seq::<LitNode>::empty());
    assert(attribute_models(out@) + Seq::<AttributeModel>::empty() == attribute_models(out@));
    Ok(out)
}

/// The attributes declared in a call: a property declaration yields one,
/// a schema declaration none, any other call those of its arguments.
fn attributes_call(name: &String, args: &Vec<Vec<LitNode>>) -> (r: Result<Vec<Attribute>, ConvertError>)
    ensures
        attributes_match(r, node_attributes(LitNode::Fn(*name, *args))),
    decreases args, 3int,
{
    if same_text(name.as_str(), "required-attribute") || same_text(name.as_str(), "optional-attribute") {
        let (pn, p) = match property_from(name, args) {
            Ok(x) => x,
            Err(e) => {
                return Err(e);
            },
        };
        let inner = match schemas_args(args) {
            Ok(v) => v,
            Err(e) => {
                return Err(e);
            },
        };
        let a = Attribute { name: pn, property: p, inner };
        let mut v: Vec<Attribute> = Vec::new();
        v.push(a);
        assert(attribute_models(v@) =~= seq![a.model()]);
        Ok(v)
    } else if same_text(name.as_str(), "schema") || same_text(name.as_str(), "schema-group") {
        let v: Vec<Attribute> = Vec::new();
        assert(attribute_models(v@) =~= Seq::<AttributeModel>::empty());
        Ok(v)
    } else {
        attributes_args(args)
    }
}

/// The attributes declared in each argument, in order.
fn attributes_args(args: &Vec<Vec<LitNode>>) -> (r: Result<Vec<Attribute>, ConvertError>)
    ensures
        attributes_match(r, attributes_in_args(args@)),
    decreases args, 1int,
{
    let n = args.len();
    let mut out: Vec<Attribute> = Vec::new();
    let mut j: usize = 0;
    assert(args@.subrange(0, n as int) == args@);
    while j < n
        invariant
            n == args@.len(),
            j <= n,
            attributes_in_args(args@) == prepend(attribute_models(out@), attributes_in_args(args@.subrange(j as int, n as int))),
            attrs_wf(out@),
        decreases n - j,
    {
        let ghost rest = args@.subrange(j as int, n as int);
        assert(rest[0] == args@[j as int]);
        assert(rest.drop_first() == args@.subrange(j + 1, n as int));
        let ghost out0 = out@;
        proof {
            match attributes_of(args@[j as int]@) {
                Ok(a) => lemma_prepend_assoc(attribute_models(out@), a, attributes_in_args(rest.drop_first())),
                Err(_) => {},
            }
        }
        assert(decreases_to!(*args => args[j as int]));
        match attributes_in(&args[j]) {
            Ok(found) => {
                let mut found = found;
                let ghost fm = attribute_models(found@);
                let ghost f0 = found@;
                out.append(&mut found);
                assert(attribute_models(out@) =~= attribute_models(out0) + fm);
                assert(out@ == out0 + f0);
            },
            Err(e) => {
                return Err(e);
            },
        }
        j = j + 1;
    }
    assert(args@.subrange(n as int, n as int) == Seq::<Vec<LitNode>>::empty());
    assert(attribute_models(out@) + Seq::<AttributeModel>::empty() == attribute_models(out@));
    Ok(out)
}

/// Converts a document into the schemas it declares, in document order: each
/// schema, then the schemas inside its properties, then those nested in its
/// arguments. A type annotation that cannot be read, or a declaration that
/// lacks an argument it needs, fails the whole conversion.
pub fn to_jsonschemas(doc: &LitDocument) -> (r: Result<Vec<Schema>, ConvertError>)
    ensures
        schemas_match(r, schemas_of(doc@)),
{
    schemas_in(doc)
}

} // verus!
