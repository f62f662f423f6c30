use micro_donations::errors::MicroDonationsError;
use micro_donations::ledger::{AccountId, MicroDonations};

#[test]
fn test_init() {
    let admin = AccountId { id: 42 };
    let ledger = MicroDonations::init(admin);

    assert_eq!(ledger.admin(), admin);
}

#[test]
fn test_create_project() {
    let admin = AccountId { id: 42 };
    let mut ledger = MicroDonations::init(admin);

    let project_name = "test_project";
    let goal = 1000;

    ledger
        .create_project(admin, project_name.to_string(), goal)
        .unwrap();

    let (balance, stored_goal) = ledger.get_project_status(project_name.to_string()).unwrap();
    assert_eq!(balance, 0);
    assert_eq!(stored_goal, goal);
}

#[test]
fn test_create_project_invalid_goal() {
    let admin = AccountId { id: 42 };
    let mut ledger = MicroDonations::init(admin);

    let project_name = "test_project";
    let goal = 0;

    let result = ledger.create_project(admin, project_name.to_string(), goal);
    assert!(matches!(result, Err(MicroDonationsError::InvalidAmount)));
}

#[test]
fn test_create_duplicate_project() {
    let admin = AccountId { id: 42 };
    let mut ledger = MicroDonations::init(admin);

    let project_name = "test_project";
    let goal = 1000;

    ledger
        .create_project(admin, project_name.to_string(), goal)
        .unwrap();
    let result = ledger.create_project(admin, project_name.to_string(), goal);
    assert!(matches!(result, Err(MicroDonationsError::ProjectAlreadyExists)));
}

#[test]
fn test_donate() {
    let admin = AccountId { id: 42 };
    let mut ledger = MicroDonations::init(admin);

    let project_name = "test_project";
    let goal = 1000;

    ledger
        .create_project(admin, project_name.to_string(), goal)
        .unwrap();
    ledger.donate(project_name.to_string(), 500).unwrap();

    let (balance, _) = ledger.get_project_status(project_name.to_string()).unwrap();
    assert_eq!(balance, 500);
}

#[test]
fn test_donate_exceed_goal() {
    let admin = AccountId { id: 42 };
    let mut ledger = MicroDonations::init(admin);

    let project_name = "test_project";
    let goal = 1000;

    ledger
        .create_project(admin, project_name.to_string(), goal)
        .unwrap();
    ledger.donate(project_name.to_string(), 500).unwrap();
    let result = ledger.donate(project_name.to_string(), 501);
    assert!(matches!(result, Err(MicroDonationsError::GoalExceeded)));
}

#[test]
fn test_get_project_status() {
    let admin = AccountId { id: 42 };
    let mut ledger = MicroDonations::init(admin);

    let project_name = "test_project";
    let goal = 1000;

    ledger
        .create_project(admin, project_name.to_string(), goal)
        .unwrap();
    ledger.donate(project_name.to_string(), 500).unwrap();

    let status = ledger.get_project_status(project_name.to_string()).unwrap();
    assert_eq!(status, (500, 1000));
}

#[test]
fn test_get_all_projects() {
    let admin = AccountId { id: 42 };
    let mut ledger = MicroDonations::init(admin);

    ledger
        .create_project(admin, "project1".to_string(), 1000)
        .unwrap();
    ledger
        .create_project(admin, "project2".to_string(), 2000)
        .unwrap();

    let all_projects = ledger.get_all_projects();
    assert_eq!(all_projects.len(), 2);
    assert!(all_projects.contains(&"project1".to_string()));
    assert!(all_projects.contains(&"project2".to_string()));
}

#[test]
fn test_withdraw() {
    let admin = AccountId { id: 42 };
    let mut ledger = MicroDonations::init(admin);

    let project_name = "test_project";
    let goal = 1000;

    ledger
        .create_project(admin, project_name.to_string(), goal)
        .unwrap();
    ledger.donate(project_name.to_string(), 500).unwrap();
    ledger
        .withdraw(admin, project_name.to_string(), 200)
        .unwrap();

    let (balance, _) = ledger.get_project_status(project_name.to_string()).unwrap();
    assert_eq!(balance, 300);
}
