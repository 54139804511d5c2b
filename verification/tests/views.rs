use strz_analysis::semantic::ViewKind;
use strz_analysis::symbols::SymbolKind;
use strz_analysis::workspace::relationships::is_view_element_kind_allowed;

#[test]
fn workspace_view_element_matrix_matches_current_upstream_parity() {
    assert!(is_view_element_kind_allowed(
        ViewKind::SystemLandscape,
        SymbolKind::SoftwareSystem
    ));
    assert!(!is_view_element_kind_allowed(
        ViewKind::SystemLandscape,
        SymbolKind::Container
    ));

    assert!(is_view_element_kind_allowed(
        ViewKind::SystemContext,
        SymbolKind::Person
    ));
    assert!(!is_view_element_kind_allowed(
        ViewKind::SystemContext,
        SymbolKind::Container
    ));

    assert!(is_view_element_kind_allowed(
        ViewKind::Container,
        SymbolKind::Container
    ));
    assert!(!is_view_element_kind_allowed(
        ViewKind::Container,
        SymbolKind::Component
    ));

    assert!(is_view_element_kind_allowed(
        ViewKind::Component,
        SymbolKind::Component
    ));
    assert!(!is_view_element_kind_allowed(
        ViewKind::Component,
        SymbolKind::Relationship
    ));
}

#[test]
fn views_view_element_matrix_matches_current_upstream_parity() {
    assert!(is_view_element_kind_allowed(
        ViewKind::SystemLandscape,
        SymbolKind::SoftwareSystem
    ));
    assert!(!is_view_element_kind_allowed(
        ViewKind::SystemLandscape,
        SymbolKind::Container
    ));

    assert!(is_view_element_kind_allowed(
        ViewKind::SystemContext,
        SymbolKind::Person
    ));
    assert!(!is_view_element_kind_allowed(
        ViewKind::SystemContext,
        SymbolKind::Container
    ));

    assert!(is_view_element_kind_allowed(
        ViewKind::Container,
        SymbolKind::Container
    ));
    assert!(!is_view_element_kind_allowed(
        ViewKind::Container,
        SymbolKind::Component
    ));

    assert!(is_view_element_kind_allowed(
        ViewKind::Component,
        SymbolKind::Component
    ));
    assert!(!is_view_element_kind_allowed(
        ViewKind::Component,
        SymbolKind::Relationship
    ));
}
