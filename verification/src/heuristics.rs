//! Heuristics for code that Python, Django and Pytest use implicitly.
//!
//! The dynamic nature of Python hides many calls from static analysis.
//! These heuristics recognise code that frameworks call by name, by
//! convention or by location, so that it is not reported as dead.

use vstd::prelude::*;

use crate::paths::{components_of, path_components};
use crate::text::{
    chars_equal, chars_of, contains_chars, contains_text, ends_with_chars, has_prefix, has_suffix,
    split, split_chars, starts_with_chars, strip_leading, trim, trim_chars, strip_leading_chars,
    string_from, lemma_split_last_is_suffix, views_of, strings_view, lemma_split_first_piece,
    lemma_trim_end_shape, lemma_trim_is_trimmed, lemma_trim_of_trimmed, lemma_trim_start_shape,
    trim_end, trim_start,
};

verus! {

/// Last segments of decorators that turn a function into an entry point:
/// Django signals, Celery tasks, template tags and Pytest fixtures.
pub open spec fn entry_point_decorator_segments() -> Seq<Seq<char>> {
    seq!["receiver"@, "shared_task"@, "task"@, "fixture"@, "simple_tag"@]
}

/// Attributes of `admin.ModelAdmin` classes that hold string references to code.
pub open spec fn admin_dynamic_attributes() -> Seq<Seq<char>> {
    seq!["list_display"@, "list_filter"@, "actions"@, "readonly_fields"@]
}

/// Builtins that take an attribute name as a string.
pub open spec fn dynamic_reference_builtins() -> Seq<Seq<char>> {
    seq!["getattr"@, "setattr"@, "hasattr"@, "delattr"@]
}

/// Django route registration functions.
pub open spec fn url_registration_functions() -> Seq<Seq<char>> {
    seq!["path"@, "re_path"@, "url"@]
}

/// Method names that Django and DRF call implicitly.
pub open spec fn implicit_method_names() -> Seq<Seq<char>> {
    seq![
        "handle"@, "add_arguments"@, "ready"@, "save"@, "delete"@, "clean"@, "full_clean"@,
        "form_valid"@, "form_invalid"@, "setUp"@, "tearDown"@, "setUpTestData"@, "validate"@,
        "to_representation"@, "to_internal_value"@, "dispatch"@,
    ]
}

/// Prefixes of method names that frameworks call by convention: field validators,
/// getters, DRF hooks, permission checks, document field preparation and tests.
pub open spec fn implicit_method_prefixes() -> Seq<Seq<char>> {
    seq!["validate_"@, "clean_"@, "get_"@, "perform_"@, "has_"@, "prepare_"@, "test_"@]
}

/// Markers of base classes whose methods the framework itself calls.
pub open spec fn framework_driven_base_markers() -> Seq<Seq<char>> {
    seq![
        "Serializer"@, "ViewSet"@, "View"@, "Permission"@, "Form"@, "Admin"@, "Middleware"@,
        "Authentication"@, "Throttle"@, "Pagination"@, "Renderer"@, "Parser"@, "Filter"@,
        "TestCase"@, "Consumer"@, "Backend"@, "Command"@, "BaseModel"@, "Document"@,
        "InnerDoc"@,
    ]
}

/// Last segments of decorators that turn a method into a property.
pub open spec fn property_decorator_segments() -> Seq<Seq<char>> {
    seq!["property"@, "cached_property"@, "setter"@, "getter"@, "deleter"@]
}

/// Names of nested classes that frameworks read by convention.
pub open spec fn implicit_class_names() -> Seq<Seq<char>> {
    seq![
        "Meta"@, "Media"@, "DoesNotExist"@, "MultipleObjectsReturned"@, "Config"@, "Index"@,
        "Django"@,
    ]
}

/// Names of module variables that Django reads by convention.
pub open spec fn implicit_variable_names() -> Seq<Seq<char>> {
    seq![
        "urlpatterns"@, "app_name"@, "application"@, "default_app_config"@, "handler400"@,
        "handler403"@, "handler404"@, "handler500"@,
    ]
}

/// The views of a table of string slices.
pub open spec fn table_view(table: Seq<&str>) -> Seq<Seq<char>> {
    table.map_values(|entry: &str| entry@)
}

/// Whether `name` is one of the `table` entries.
pub fn table_contains(table: &Vec<&str>, name: &[char]) -> (result: bool)
    ensures
        result == table_view(table@).contains(name@),
{
    let mut i: usize = 0;
    while i < table.len()
        invariant
            i <= table@.len(),
            forall|k: int| 0 <= k < i ==> table@[k]@ != name@,
        decreases table@.len() - i,
    {
        let entry = chars_of(table[i]);
        if chars_equal(entry.as_slice(), name) {
            assert(table_view(table@)[i as int] == name@);
            return true;
        }
        i = i + 1;
    }
    assert(!table_view(table@).contains(name@)) by {
        if table_view(table@).contains(name@) {
            let k = choose|k: int| 0 <= k < table_view(table@).len() && table_view(table@)[k] == name@;
            assert(table@[k]@ == name@);
        }
    }
    false
}

/// Whether some entry of `table` is a prefix of `name`.
pub fn table_has_prefix_of(table: &Vec<&str>, name: &[char]) -> (result: bool)
    ensures
        result == exists|k: int| 0 <= k < table@.len() && has_prefix(name@, #[trigger] table@[k]@),
{
    let mut i: usize = 0;
    while i < table.len()
        invariant
            i <= table@.len(),
            forall|k: int| 0 <= k < i ==> !has_prefix(name@, #[trigger] table@[k]@),
        decreases table@.len() - i,
    {
        let entry = chars_of(table[i]);
        if starts_with_chars(name, entry.as_slice()) {
            return true;
        }
        i = i + 1;
    }
    false
}

/// Whether some entry of `table` occurs inside `text`.
pub fn table_has_entry_within(table: &Vec<&str>, text: &[char]) -> (result: bool)
    ensures
        result == exists|k: int| 0 <= k < table@.len() && contains_text(text@, #[trigger] table@[k]@),
{
    let mut i: usize = 0;
    while i < table.len()
        invariant
            i <= table@.len(),
            forall|k: int| 0 <= k < i ==> !contains_text(text@, #[trigger] table@[k]@),
        decreases table@.len() - i,
    {
        let entry = chars_of(table[i]);
        if contains_chars(text, entry.as_slice()) {
            return true;
        }
        i = i + 1;
    }
    false
}

/// The table of entry point decorator segments.
pub fn entry_point_decorator_table() -> (table: Vec<&'static str>)
    ensures
        table_view(table@) == entry_point_decorator_segments(),
{
    let table = vec!["receiver", "shared_task", "task", "fixture", "simple_tag"];
    assert(table_view(table@) =~= entry_point_decorator_segments());
    table
}

/// The table of `ModelAdmin` attributes holding string references.
pub fn admin_dynamic_attribute_table() -> (table: Vec<&'static str>)
    ensures
        table_view(table@) == admin_dynamic_attributes(),
{
    let table = vec!["list_display", "list_filter", "actions", "readonly_fields"];
    assert(table_view(table@) =~= admin_dynamic_attributes());
    table
}

/// The table of builtins taking attribute names as strings.
pub fn dynamic_reference_builtin_table() -> (table: Vec<&'static str>)
    ensures
        table_view(table@) == dynamic_reference_builtins(),
{
    let table = vec!["getattr", "setattr", "hasattr", "delattr"];
    assert(table_view(table@) =~= dynamic_reference_builtins());
    table
}

/// The table of route registration functions.
pub fn url_registration_function_table() -> (table: Vec<&'static str>)
    ensures
        table_view(table@) == url_registration_functions(),
{
    let table = vec!["path", "re_path", "url"];
    assert(table_view(table@) =~= url_registration_functions());
    table
}

/// The table of implicitly called method names.
pub fn implicit_method_name_table() -> (table: Vec<&'static str>)
    ensures
        table_view(table@) == implicit_method_names(),
{
    let table = vec![
        "handle", "add_arguments", "ready", "save", "delete", "clean", "full_clean", "form_valid",
        "form_invalid", "setUp", "tearDown", "setUpTestData", "validate", "to_representation",
        "to_internal_value", "dispatch",
    ];
    assert(table_view(table@) =~= implicit_method_names());
    table
}

/// The table of conventional method name prefixes.
pub fn implicit_method_prefix_table() -> (table: Vec<&'static str>)
    ensures
        table_view(table@) == implicit_method_prefixes(),
{
    let table = vec!["validate_", "clean_", "get_", "perform_", "has_", "prepare_", "test_"];
    assert(table_view(table@) =~= implicit_method_prefixes());
    table
}

/// The table of framework-driven base class markers.
pub fn framework_driven_base_marker_table() -> (table: Vec<&'static str>)
    ensures
        table_view(table@) == framework_driven_base_markers(),
{
    let table = vec![
        "Serializer", "ViewSet", "View", "Permission", "Form", "Admin", "Middleware",
        "Authentication", "Throttle", "Pagination", "Renderer", "Parser", "Filter", "TestCase",
        "Consumer", "Backend", "Command", "BaseModel", "Document", "InnerDoc",
    ];
    assert(table_view(table@) =~= framework_driven_base_markers());
    table
}

/// The table of property decorator segments.
pub fn property_decorator_table() -> (table: Vec<&'static str>)
    ensures
        table_view(table@) == property_decorator_segments(),
{
    let table = vec!["property", "cached_property", "setter", "getter", "deleter"];
    assert(table_view(table@) =~= property_decorator_segments());
    table
}

/// The table of conventionally read nested class names.
pub fn implicit_class_name_table() -> (table: Vec<&'static str>)
    ensures
        table_view(table@) == implicit_class_names(),
{
    let table = vec![
        "Meta", "Media", "DoesNotExist", "MultipleObjectsReturned", "Config", "Index", "Django",
    ];
    assert(table_view(table@) =~= implicit_class_names());
    table
}

/// The table of conventionally read module variable names.
pub fn implicit_variable_name_table() -> (table: Vec<&'static str>)
    ensures
        table_view(table@) == implicit_variable_names(),
{
    let table = vec![
        "urlpatterns", "app_name", "application", "default_app_config", "handler400",
        "handler403", "handler404", "handler500",
    ];
    assert(table_view(table@) =~= implicit_variable_names());
    table
}

/// The decorator text reduced to its dotted name without `@` and arguments.
pub open spec fn normalized_decorator(text: Seq<char>) -> Seq<char> {
    trim(split(trim(strip_leading(text, '@')), '(')[0])
}

/// The name a decorator is reduced to has no `(`, no whitespace at either end,
/// and is a prefix of the decorator text without its leading `@` run and outer
/// whitespace; when that text does not itself start with `@`, reducing the
/// name again gives the same name.
pub proof fn lemma_normalized_decorator_shape(text: Seq<char>)
    ensures
        !normalized_decorator(text).contains('('),
        trim(normalized_decorator(text)) == normalized_decorator(text),
        has_prefix(trim(strip_leading(text, '@')), normalized_decorator(text)),
        (trim(strip_leading(text, '@')).len() == 0 || trim(strip_leading(text, '@'))[0] != '@')
            ==> normalized_decorator(normalized_decorator(text)) == normalized_decorator(text),
{
    let t = trim(strip_leading(text, '@'));
    lemma_trim_is_trimmed(strip_leading(text, '@'));
    lemma_split_first_piece(t, '(');
    let p = split(t, '(')[0];
    let r = normalized_decorator(text);
    lemma_trim_start_shape(p);
    if p.len() > 0 {
        assert(p[0] == t[0]);
        assert(trim_start(p) == p);
    } else {
        assert(trim_start(p) == p);
    }
    lemma_trim_end_shape(p);
    assert(r == trim_end(p));
    lemma_trim_is_trimmed(p);
    lemma_trim_of_trimmed(r);
    assert(has_prefix(t, r)) by {
        assert(t.subrange(0, r.len() as int) =~= p.subrange(0, r.len() as int));
    }
    if r.contains('(') {
        let i = choose|i: int| 0 <= i < r.len() && r[i] == '(';
        assert(p[i] == '(');
    }
    if t.len() == 0 || t[0] != '@' {
        if r.len() > 0 {
            assert(r[0] == t[0]);
        }
        assert(strip_leading(r, '@') == r);
        lemma_split_first_piece(r, '(');
        assert(split(r, '(')[0] == r);
    }
}

/// Whether every item of `smaller` is in `larger`.
pub open spec fn names_included(smaller: Seq<Seq<char>>, larger: Seq<Seq<char>>) -> bool {
    forall|i: int| 0 <= i < smaller.len() ==> larger.contains(#[trigger] smaller[i])
}

/// More base markers make at least the same bases framework-driven.
pub proof fn lemma_framework_base_monotone(base: Seq<char>, markers: Seq<Seq<char>>, more_markers: Seq<Seq<char>>)
    requires
        names_included(markers, more_markers),
        framework_driven_base(base, markers),
    ensures
        framework_driven_base(base, more_markers),
{
    if exists|k: int| 0 <= k < markers.len() && contains_text(base, #[trigger] markers[k]) {
        let k = choose|k: int| 0 <= k < markers.len() && contains_text(base, #[trigger] markers[k]);
        assert(more_markers.contains(markers[k]));
        let j = choose|j: int| 0 <= j < more_markers.len() && more_markers[j] == markers[k];
        assert(contains_text(base, more_markers[j]));
    }
}

/// More configured decorators match at least the same decorators.
pub proof fn lemma_configured_decorator_monotone(decorator: Seq<char>, configured: Seq<Seq<char>>, more_configured: Seq<Seq<char>>)
    requires
        names_included(configured, more_configured),
        configured_decorator(decorator, configured),
    ensures
        configured_decorator(decorator, more_configured),
{
    let k = choose|k: int|
        0 <= k < configured.len() && (#[trigger] configured[k] == decorator || configured[k] == last_segment(decorator));
    assert(more_configured.contains(configured[k]));
    let j = choose|j: int| 0 <= j < more_configured.len() && more_configured[j] == configured[k];
    assert(more_configured[j] == decorator || more_configured[j] == last_segment(decorator));
}

/// The last segment of a dotted name (`str::rsplit('.')`, first item).
pub open spec fn last_segment(dotted_name: Seq<char>) -> Seq<char> {
    split(dotted_name, '.').last()
}

/// Whether a normalised decorator makes a function an entry point.
pub open spec fn entry_point_decorator(decorator: Seq<char>) -> bool {
    ||| entry_point_decorator_segments().contains(last_segment(decorator))
    ||| has_suffix(decorator, "register.filter"@)
}

/// Whether a normalised decorator matches one of the configured decorators,
/// by full dotted name or by last segment.
pub open spec fn configured_decorator(decorator: Seq<char>, configured: Seq<Seq<char>>) -> bool {
    exists|k: int|
        0 <= k < configured.len() && (#[trigger] configured[k] == decorator || configured[k]
            == last_segment(decorator))
}

/// Whether a normalised decorator registers a class with a framework.
pub open spec fn class_registration_decorator(decorator: Seq<char>) -> bool {
    last_segment(decorator) == "register"@ || last_segment(decorator) == "register_document"@
}

/// Whether the file lies in a Django `management/commands` directory.
pub open spec fn management_command_path(file_path: Seq<char>) -> bool {
    let parts = path_components(file_path);
    exists|i: int| 0 <= i && i + 1 < parts.len() && #[trigger] parts[i] == "management"@ && parts[i + 1] == "commands"@
}

/// Whether a framework calls a method of that name implicitly.
pub open spec fn implicit_method_name(name: Seq<char>) -> bool {
    ||| implicit_method_names().contains(name)
    ||| exists|k: int| 0 <= k < implicit_method_prefixes().len() && has_prefix(name, #[trigger] implicit_method_prefixes()[k])
}

/// Whether a function is a test by the Pytest naming convention.
pub open spec fn test_function_name(name: Seq<char>) -> bool {
    has_prefix(name, "test_"@)
}

/// Whether the framework drives the methods of classes derived from this base.
pub open spec fn framework_driven_base(base: Seq<char>, extra_markers: Seq<Seq<char>>) -> bool {
    ||| exists|k: int| 0 <= k < framework_driven_base_markers().len() && contains_text(base, #[trigger] framework_driven_base_markers()[k])
    ||| exists|k: int| 0 <= k < extra_markers.len() && contains_text(base, #[trigger] extra_markers[k])
}

/// Whether a normalised decorator turns a method into a property.
pub open spec fn property_decorator(decorator: Seq<char>) -> bool {
    property_decorator_segments().contains(last_segment(decorator))
}

/// Whether Django finds a class of that name by convention.
pub open spec fn implicit_class_name(name: Seq<char>) -> bool {
    implicit_class_names().contains(name)
}

/// Whether Django reads a module variable of that name by convention.
pub open spec fn implicit_variable_name(name: Seq<char>) -> bool {
    implicit_variable_names().contains(name)
}

/// Whether the dotted module path names a Django settings module.
pub open spec fn settings_module(module_name: Seq<char>) -> bool {
    split(module_name, '.').contains("settings"@)
}

/// Whether a class is the `AppConfig` of a Django `apps` module.
pub open spec fn app_config_class(module_name: Seq<char>, superclasses_text: Seq<char>) -> bool {
    last_segment(module_name) == "apps"@ && contains_text(superclasses_text, "AppConfig"@)
}

/// Whether a name follows the Python dunder protocol: longer than four
/// characters, opening and closing with two underscores.
pub open spec fn dunder_name(name: Seq<char>) -> bool {
    name.len() > 4 && has_prefix(name, "__"@) && has_suffix(name, "__"@)
}

/// The index where the last segment of `chars` begins.
fn last_segment_start(chars: &[char]) -> (start: usize)
    ensures
        start <= chars@.len(),
        chars@.subrange(start as int, chars@.len() as int) == last_segment(chars@),
{
    let pieces = split_chars(chars, '.');
    proof {
        lemma_split_last_is_suffix(chars@, '.');
    }
    let last_len = pieces[pieces.len() - 1].len();
    assert(views_of(pieces@).last() == pieces@.last()@);
    chars.len() - last_len
}

/// Reduces decorator text to a dotted name without `@` and arguments.
pub fn normalize_decorator_expression(decorator_text: &str) -> (normalized: String)
    ensures
        normalized@ == normalized_decorator(decorator_text@),
{
    let chars = chars_of(decorator_text);
    let without_at_sign = strip_leading_chars(chars.as_slice(), '@');
    let trimmed = trim_chars(without_at_sign.as_slice());
    let pieces = split_chars(trimmed.as_slice(), '(');
    assert(views_of(pieces@)[0] == pieces@[0]@);
    let without_arguments = trim_chars(pieces[0].as_slice());
    string_from(without_arguments.as_slice())
}

/// Returns the last segment of a dotted name.
pub fn last_dotted_segment(dotted_name: &str) -> (segment: &str)
    ensures
        segment@ == last_segment(dotted_name@),
{
    let chars = chars_of(dotted_name);
    let start = last_segment_start(chars.as_slice());
    dotted_name.substring_char(start, chars.len())
}

/// Whether the decorator belongs to the built-in entry points.
pub fn is_entry_point_decorator(normalized_decorator: &str) -> (result: bool)
    ensures
        result == entry_point_decorator(normalized_decorator@),
{
    let segment = chars_of(last_dotted_segment(normalized_decorator));
    if table_contains(&entry_point_decorator_table(), segment.as_slice()) {
        return true;
    }
    let chars = chars_of(normalized_decorator);
    ends_with_chars(chars.as_slice(), chars_of("register.filter").as_slice())
}

/// Whether the decorator matches a configured decorator by full name or last segment.
pub fn matches_configured_decorator(normalized_decorator: &str, configured_decorators: &[String]) -> (result: bool)
    ensures
        result == configured_decorator(
            normalized_decorator@,
            strings_view(configured_decorators@),
        ),
{
    let ghost configured_views = strings_view(configured_decorators@);
    let decorator = chars_of(normalized_decorator);
    let segment = chars_of(last_dotted_segment(normalized_decorator));
    let mut i: usize = 0;
    while i < configured_decorators.len()
        invariant
            i <= configured_decorators@.len(),
            configured_views == strings_view(configured_decorators@),
            decorator@ == normalized_decorator@,
            segment@ == last_segment(normalized_decorator@),
            forall|k: int| 0 <= k < i ==> !(#[trigger] configured_views[k] == decorator@
                || configured_views[k] == segment@),
        decreases configured_decorators@.len() - i,
    {
        let configured = chars_of(configured_decorators[i].as_str());
        if chars_equal(configured.as_slice(), decorator.as_slice()) || chars_equal(configured.as_slice(), segment.as_slice()) {
            assert(configured_views[i as int] == configured@);
            return true;
        }
        i = i + 1;
    }
    false
}

/// Whether the decorator registers a class with a framework
/// (Django `admin.register`, django-elasticsearch-dsl `registry.register_document`).
pub fn is_class_registration_decorator(normalized_decorator: &str) -> (result: bool)
    ensures
        result == class_registration_decorator(normalized_decorator@),
{
    let segment = chars_of(last_dotted_segment(normalized_decorator));
    chars_equal(segment.as_slice(), chars_of("register").as_slice())
        || chars_equal(segment.as_slice(), chars_of("register_document").as_slice())
}

/// Whether the file lies in a Django `management/commands` directory.
pub fn is_management_command_path(file_path: &str) -> (result: bool)
    ensures
        result == management_command_path(file_path@),
{
    let parts = components_of(chars_of(file_path).as_slice());
    let management = chars_of("management");
    let commands = chars_of("commands");
    let ghost texts = views_of(parts@);
    let mut i: usize = 0;
    while i < parts.len() && i + 1 < parts.len()
        invariant
            i <= parts@.len(),
            texts == views_of(parts@),
            texts == path_components(file_path@),
            management@ == "management"@,
            commands@ == "commands"@,
            forall|k: int| 0 <= k < i && k + 1 < texts.len() ==> !(#[trigger] texts[k] == "management"@ && texts[k + 1] == "commands"@),
        decreases parts@.len() - i,
    {
        assert(texts[i as int] == parts@[i as int]@ && texts[i + 1] == parts@[i + 1]@);
        if chars_equal(parts[i].as_slice(), management.as_slice()) && chars_equal(parts[i + 1].as_slice(), commands.as_slice()) {
            return true;
        }
        i = i + 1;
    }
    false
}

/// Whether a method of that name is called implicitly by a framework.
pub fn is_implicit_method_name(method_name: &str) -> (result: bool)
    ensures
        result == implicit_method_name(method_name@),
{
    let name = chars_of(method_name);
    let prefixes = implicit_method_prefix_table();
    let by_prefix = table_has_prefix_of(&prefixes, name.as_slice());
    table_contains(&implicit_method_name_table(), name.as_slice()) || by_prefix
}

/// Whether the function is a test by the Pytest naming convention.
pub fn is_test_function_name(function_name: &str) -> (result: bool)
    ensures
        result == test_function_name(function_name@),
{
    starts_with_chars(chars_of(function_name).as_slice(), chars_of("test_").as_slice())
}

/// Whether the framework calls the methods of classes derived from this base.
pub fn is_framework_driven_base(base_class_name: &str, extra_markers: &[String]) -> (result: bool)
    ensures
        result == framework_driven_base(
            base_class_name@,
            strings_view(extra_markers@),
        ),
{
    let ghost extra_views = strings_view(extra_markers@);
    let base = chars_of(base_class_name);
    let markers = framework_driven_base_marker_table();
    if table_has_entry_within(&markers, base.as_slice()) {
        return true;
    }
    let mut i: usize = 0;
    while i < extra_markers.len()
        invariant
            i <= extra_markers@.len(),
            extra_views == strings_view(extra_markers@),
            base@ == base_class_name@,
            forall|k: int| 0 <= k < i ==> !contains_text(base@, #[trigger] extra_views[k]),
        decreases extra_markers@.len() - i,
    {
        let marker = chars_of(extra_markers[i].as_str());
        if contains_chars(base.as_slice(), marker.as_slice()) {
            assert(extra_views[i as int] == marker@);
            return true;
        }
        i = i + 1;
    }
    false
}

/// Whether the decorator turns a method into a property
/// (`property`, `functools.cached_property`, `@name.setter` and the like).
pub fn is_property_decorator(normalized_decorator: &str) -> (result: bool)
    ensures
        result == property_decorator(normalized_decorator@),
{
    let segment = chars_of(last_dotted_segment(normalized_decorator));
    table_contains(&property_decorator_table(), segment.as_slice())
}

/// Whether Django finds a class of that name by convention.
pub fn is_implicit_class_name(class_name: &str) -> (result: bool)
    ensures
        result == implicit_class_name(class_name@),
{
    table_contains(&implicit_class_name_table(), chars_of(class_name).as_slice())
}

/// Whether Django reads a module variable of that name by convention.
pub fn is_implicit_variable_name(variable_name: &str) -> (result: bool)
    ensures
        result == implicit_variable_name(variable_name@),
{
    table_contains(&implicit_variable_name_table(), chars_of(variable_name).as_slice())
}

/// Whether the module is a Django settings module: all its variables are read
/// through `django.conf.settings`.
pub fn is_settings_module(module_name: &str) -> (result: bool)
    ensures
        result == settings_module(module_name@),
{
    let pieces = split_chars(chars_of(module_name).as_slice(), '.');
    let settings = chars_of("settings");
    let mut i: usize = 0;
    while i < pieces.len()
        invariant
            i <= pieces@.len(),
            views_of(pieces@) == split(module_name@, '.'),
            settings@ == "settings"@,
            forall|k: int| 0 <= k < i ==> views_of(pieces@)[k] != "settings"@,
        decreases pieces@.len() - i,
    {
        if chars_equal(pieces[i].as_slice(), settings.as_slice()) {
            assert(views_of(pieces@)[i as int] == "settings"@);
            return true;
        }
        i = i + 1;
    }
    false
}

/// Whether the class is the `AppConfig` of a Django `apps` module.
pub fn is_app_config_class(module_name: &str, superclasses_text: &str) -> (result: bool)
    ensures
        result == app_config_class(module_name@, superclasses_text@),
{
    let segment = chars_of(last_dotted_segment(module_name));
    chars_equal(segment.as_slice(), chars_of("apps").as_slice())
        && contains_chars(chars_of(superclasses_text).as_slice(), chars_of("AppConfig").as_slice())
}

/// Whether the name follows the Python dunder protocol.
pub fn is_dunder_name(entity_name: &str) -> (result: bool)
    ensures
        result == dunder_name(entity_name@),
{
    let chars = chars_of(entity_name);
    let underscores = chars_of("__");
    chars.len() > 4 && starts_with_chars(chars.as_slice(), underscores.as_slice())
        && ends_with_chars(chars.as_slice(), underscores.as_slice())
}

} // verus!
