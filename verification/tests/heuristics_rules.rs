//! Tests of the Django, DRF and Pytest conventions.

use dc::heuristics::{
    is_app_config_class, is_class_registration_decorator, is_dunder_name, is_entry_point_decorator,
    is_framework_driven_base, is_implicit_class_name, is_implicit_method_name,
    is_implicit_variable_name, is_management_command_path, is_property_decorator,
    is_settings_module, is_test_function_name, last_dotted_segment, matches_configured_decorator,
    normalize_decorator_expression,
};

#[test]
fn decorator_normalization_strips_arguments() {
    assert_eq!(
        normalize_decorator_expression("@receiver(post_save, sender=Product)"),
        "receiver"
    );
    assert_eq!(normalize_decorator_expression("@app.task"), "app.task");
}

#[test]
fn entry_point_decorators_are_recognized() {
    assert!(is_entry_point_decorator("receiver"));
    assert!(is_entry_point_decorator("app.task"));
    assert!(is_entry_point_decorator("shared_task"));
    assert!(is_entry_point_decorator("pytest.fixture"));
    assert!(is_entry_point_decorator("register.simple_tag"));
    assert!(is_entry_point_decorator("register.filter"));
    assert!(!is_entry_point_decorator("property"));
    assert!(!is_entry_point_decorator("staticmethod"));
}

#[test]
fn configured_decorators_match_by_full_name_or_segment() {
    let configured = vec!["broker.subscribe".to_string(), "periodic".to_string()];
    assert!(matches_configured_decorator("broker.subscribe", &configured));
    assert!(matches_configured_decorator("app.periodic", &configured));
    assert!(!matches_configured_decorator("app.other", &configured));
}

#[test]
fn implicit_method_names_match_exactly_or_by_prefix() {
    assert!(is_implicit_method_name("validate"));
    assert!(is_implicit_method_name("validate_email"));
    assert!(is_implicit_method_name("clean_username"));
    assert!(is_implicit_method_name("get_total_display"));
    assert!(is_implicit_method_name("perform_create"));
    assert!(is_implicit_method_name("has_object_permission"));
    assert!(!is_implicit_method_name("calculate_total"));
    assert!(!is_implicit_method_name("unused_helper"));
}

#[test]
fn property_decorators_are_recognized() {
    assert!(is_property_decorator("property"));
    assert!(is_property_decorator("functools.cached_property"));
    assert!(is_property_decorator("cached_property"));
    assert!(is_property_decorator("price.setter"));
    assert!(is_property_decorator("price.deleter"));
    assert!(!is_property_decorator("staticmethod"));
    assert!(!is_property_decorator("classmethod"));
}

#[test]
fn framework_driven_bases_are_recognized() {
    assert!(is_framework_driven_base("ModelSerializer", &[]));
    assert!(is_framework_driven_base("BasePermission", &[]));
    assert!(is_framework_driven_base("ModelViewSet", &[]));
    assert!(is_framework_driven_base("DetailView", &[]));
    assert!(is_framework_driven_base("ModelForm", &[]));
    assert!(is_framework_driven_base("BaseModel", &[]));
    assert!(is_framework_driven_base("Document", &[]));
    assert!(!is_framework_driven_base("Model", &[]));
    assert!(!is_framework_driven_base("BaseService", &[]));
    assert!(!is_framework_driven_base("", &[]));

    let extra_markers = vec!["Repository".to_string()];
    assert!(is_framework_driven_base("OrderRepository", &extra_markers));
    assert!(!is_framework_driven_base("OrderService", &extra_markers));
}

#[test]
fn class_registration_decorators_are_recognized() {
    assert!(is_class_registration_decorator("admin.register"));
    assert!(is_class_registration_decorator("registry.register_document"));
    assert!(!is_class_registration_decorator("dataclass"));
}

#[test]
fn management_command_paths_are_recognized() {
    assert!(is_management_command_path(
        "shop/management/commands/sync_products.py"
    ));
    assert!(!is_management_command_path("shop/views.py"));
}

#[test]
fn decorator_normalization_trims_whitespace_and_keeps_plain_names() {
    assert_eq!(normalize_decorator_expression("@  property  "), "property");
    assert_eq!(normalize_decorator_expression("  @property"), "@property");
    assert_eq!(normalize_decorator_expression("@price.setter"), "price.setter");
    assert_eq!(normalize_decorator_expression("@"), "");
}

#[test]
fn last_dotted_segment_takes_text_after_the_last_dot() {
    assert_eq!(last_dotted_segment("myapp.views.my_view"), "my_view");
    assert_eq!(last_dotted_segment("plain"), "plain");
    assert_eq!(last_dotted_segment("trailing."), "");
}

#[test]
fn pytest_test_functions_are_recognized_by_prefix() {
    assert!(is_test_function_name("test_checkout"));
    assert!(!is_test_function_name("checkout_test"));
}

#[test]
fn implicit_class_and_variable_names_are_recognized() {
    assert!(is_implicit_class_name("Meta"));
    assert!(!is_implicit_class_name("Product"));
    assert!(is_implicit_variable_name("urlpatterns"));
    assert!(!is_implicit_variable_name("LEGACY_FLAG"));
}

#[test]
fn settings_modules_and_app_configs_are_recognized() {
    assert!(is_settings_module("project.settings"));
    assert!(is_settings_module("project.settings.production"));
    assert!(!is_settings_module("project.views"));
    assert!(is_app_config_class("shop.apps", "(AppConfig)"));
    assert!(!is_app_config_class("shop.views", "(AppConfig)"));
}

#[test]
fn dunder_names_need_both_double_underscores() {
    assert!(is_dunder_name("__str__"));
    assert!(!is_dunder_name("__private"));
    assert!(!is_dunder_name("____"));
}

#[test]
fn normalized_decorators_are_fixed_points() {
    let normalized = normalize_decorator_expression("@app.task(bind=True, max_retries=3)");
    assert_eq!(normalized, "app.task");
    assert!(!normalized.contains('('));
    assert_eq!(normalize_decorator_expression(&normalized), normalized);
    assert_eq!(normalize_decorator_expression("@@twice"), "twice");
}
