use tterm::grid::GridManager;

#[test]
fn grid_for_few_tabs() {
    assert_eq!(GridManager::calculate_optimal_grid_size(0), (1, 1));
    assert_eq!(GridManager::calculate_optimal_grid_size(1), (1, 1));
    assert_eq!(GridManager::calculate_optimal_grid_size(2), (1, 2));
    assert_eq!(GridManager::calculate_optimal_grid_size(3), (2, 2));
    assert_eq!(GridManager::calculate_optimal_grid_size(4), (2, 2));
    assert_eq!(GridManager::calculate_optimal_grid_size(5), (2, 3));
    assert_eq!(GridManager::calculate_optimal_grid_size(6), (2, 3));
    assert_eq!(GridManager::calculate_optimal_grid_size(7), (3, 3));
    assert_eq!(GridManager::calculate_optimal_grid_size(9), (3, 3));
}

#[test]
fn grid_for_many_tabs() {
    assert_eq!(GridManager::calculate_optimal_grid_size(10), (3, 4));
    assert_eq!(GridManager::calculate_optimal_grid_size(12), (3, 4));
    assert_eq!(GridManager::calculate_optimal_grid_size(13), (4, 4));
    assert_eq!(GridManager::calculate_optimal_grid_size(17), (4, 5));
    assert_eq!(GridManager::calculate_optimal_grid_size(100), (10, 10));
}
