use guild_engine::guilds::GuildRegistry;
use guild_engine::roles::Role;
use guild_engine::version;

const OWNER: u64 = 1;
const ADMIN: u64 = 2;
const MEMBER: u64 = 3;
const NON_MEMBER: u64 = 4;

fn new_guild(reg: &mut GuildRegistry, owner: u64) -> u64 {
    reg.create_guild("Guild".to_string(), "Description".to_string(), owner, 0)
        .unwrap()
}

#[test]
fn test_initialize() {
    let reg = GuildRegistry::new();
    assert!(!reg.is_member(1, OWNER));
    assert_eq!(reg.get_all_members(1).len(), 0);
}

#[test]
fn test_version() {
    assert_eq!(version(), "0.1.0".to_string());
}

#[test]
fn test_create_guild_success() {
    let mut reg = GuildRegistry::new();
    let guild_id = reg
        .create_guild("Test Guild".to_string(), "A test guild".to_string(), OWNER, 0)
        .unwrap();
    assert_eq!(guild_id, 1u64);
}

#[test]
fn test_create_guild_owner_is_member() {
    let mut reg = GuildRegistry::new();
    let guild_id = new_guild(&mut reg, OWNER);
    assert_eq!(reg.is_member(guild_id, OWNER), true);
    let member = reg.get_member(guild_id, OWNER).unwrap();
    assert_eq!(member.role, Role::Owner);
}

#[test]
#[should_panic]
fn test_create_guild_invalid_name_empty() {
    let mut reg = GuildRegistry::new();
    reg.create_guild("".to_string(), "Description".to_string(), OWNER, 0)
        .unwrap();
}

#[test]
#[should_panic]
fn test_create_guild_invalid_description_too_long() {
    let mut reg = GuildRegistry::new();
    let long_desc = "x".repeat(513);
    reg.create_guild("Guild".to_string(), long_desc, OWNER, 0).unwrap();
}

#[test]
fn test_create_multiple_guilds() {
    let mut reg = GuildRegistry::new();
    let guild_id_1 = reg
        .create_guild("Guild 1".to_string(), "First guild".to_string(), OWNER, 0)
        .unwrap();
    let guild_id_2 = reg
        .create_guild("Guild 2".to_string(), "Second guild".to_string(), OWNER, 0)
        .unwrap();
    assert_eq!(guild_id_1, 1u64);
    assert_eq!(guild_id_2, 2u64);
}

#[test]
fn test_add_member_by_owner() {
    let mut reg = GuildRegistry::new();
    let guild_id = new_guild(&mut reg, OWNER);
    let result = reg.add_member(guild_id, ADMIN, Role::Admin, OWNER, 0).unwrap();
    assert_eq!(result, true);
    let member = reg.get_member(guild_id, ADMIN).unwrap();
    assert_eq!(member.role, Role::Admin);
}

#[test]
#[should_panic]
fn test_add_member_duplicate() {
    let mut reg = GuildRegistry::new();
    let guild_id = new_guild(&mut reg, OWNER);
    reg.add_member(guild_id, ADMIN, Role::Member, OWNER, 0).unwrap();
    reg.add_member(guild_id, ADMIN, Role::Member, OWNER, 0).unwrap();
}

#[test]
#[should_panic]
fn test_add_member_permission_denied() {
    let mut reg = GuildRegistry::new();
    let guild_id = new_guild(&mut reg, OWNER);
    reg.add_member(guild_id, ADMIN, Role::Admin, OWNER, 0).unwrap();
    reg.add_member(guild_id, MEMBER, Role::Member, OWNER, 0).unwrap();
    // a non-member tries to add someone
    reg.add_member(guild_id, NON_MEMBER, Role::Member, NON_MEMBER, 0).unwrap();
}

#[test]
#[should_panic]
fn test_add_admin_by_non_owner() {
    let mut reg = GuildRegistry::new();
    let guild_id = new_guild(&mut reg, OWNER);
    reg.add_member(guild_id, MEMBER, Role::Member, OWNER, 0).unwrap();
    // a Member tries to add an Owner
    let new_owner: u64 = 5;
    reg.add_member(guild_id, new_owner, Role::Owner, MEMBER, 0).unwrap();
}

#[test]
fn test_remove_member_by_owner() {
    let mut reg = GuildRegistry::new();
    let guild_id = new_guild(&mut reg, OWNER);
    reg.add_member(guild_id, MEMBER, Role::Member, OWNER, 0).unwrap();
    assert_eq!(reg.is_member(guild_id, MEMBER), true);
    let result = reg.remove_member(guild_id, MEMBER, OWNER).unwrap();
    assert_eq!(result, true);
    assert_eq!(reg.is_member(guild_id, MEMBER), false);
}

#[test]
fn test_self_removal() {
    let mut reg = GuildRegistry::new();
    let guild_id = new_guild(&mut reg, OWNER);
    reg.add_member(guild_id, MEMBER, Role::Member, OWNER, 0).unwrap();
    let result = reg.remove_member(guild_id, MEMBER, MEMBER).unwrap();
    assert_eq!(result, true);
    assert_eq!(reg.is_member(guild_id, MEMBER), false);
}

#[test]
#[should_panic]
fn test_remove_last_owner_fails() {
    let mut reg = GuildRegistry::new();
    let guild_id = new_guild(&mut reg, OWNER);
    reg.remove_member(guild_id, OWNER, OWNER).unwrap();
}

#[test]
#[should_panic]
fn test_remove_non_owner_by_non_owner_fails() {
    let mut reg = GuildRegistry::new();
    let guild_id = new_guild(&mut reg, OWNER);
    reg.add_member(guild_id, MEMBER, Role::Member, OWNER, 0).unwrap();
    reg.add_member(guild_id, ADMIN, Role::Admin, OWNER, 0).unwrap();
    // a Member tries to remove an Admin
    reg.remove_member(guild_id, ADMIN, MEMBER).unwrap();
}

#[test]
fn test_update_role_by_owner() {
    let mut reg = GuildRegistry::new();
    let guild_id = new_guild(&mut reg, OWNER);
    reg.add_member(guild_id, MEMBER, Role::Member, OWNER, 0).unwrap();
    let result = reg.update_role(guild_id, MEMBER, Role::Admin, OWNER).unwrap();
    assert_eq!(result, true);
    let updated = reg.get_member(guild_id, MEMBER).unwrap();
    assert_eq!(updated.role, Role::Admin);
}

#[test]
#[should_panic]
fn test_update_role_permission_denied() {
    let mut reg = GuildRegistry::new();
    let guild_id = new_guild(&mut reg, OWNER);
    let member1: u64 = 2;
    let member2: u64 = 3;
    reg.add_member(guild_id, member1, Role::Member, OWNER, 0).unwrap();
    reg.add_member(guild_id, member2, Role::Member, OWNER, 0).unwrap();
    reg.update_role(guild_id, member2, Role::Admin, member1).unwrap();
}

#[test]
#[should_panic]
fn test_cannot_demote_last_owner() {
    let mut reg = GuildRegistry::new();
    let guild_id = new_guild(&mut reg, OWNER);
    reg.add_member(guild_id, ADMIN, Role::Admin, OWNER, 0).unwrap();
    reg.update_role(guild_id, OWNER, Role::Admin, OWNER).unwrap();
}

#[test]
fn test_can_demote_owner_if_multiple() {
    let mut reg = GuildRegistry::new();
    let owner1: u64 = 1;
    let owner2: u64 = 2;
    let guild_id = new_guild(&mut reg, owner1);
    reg.add_member(guild_id, owner2, Role::Owner, owner1, 0).unwrap();
    let result = reg.update_role(guild_id, owner1, Role::Admin, owner1).unwrap();
    assert_eq!(result, true);
}

#[test]
fn test_get_member() {
    let mut reg = GuildRegistry::new();
    let guild_id = new_guild(&mut reg, OWNER);
    reg.add_member(guild_id, MEMBER, Role::Member, OWNER, 0).unwrap();
    let member_data = reg.get_member(guild_id, MEMBER).unwrap();
    assert_eq!(member_data.address, MEMBER);
    assert_eq!(member_data.role, Role::Member);
}

#[test]
#[should_panic]
fn test_get_member_not_found() {
    let mut reg = GuildRegistry::new();
    let guild_id = new_guild(&mut reg, OWNER);
    reg.add_member(guild_id, MEMBER, Role::Member, OWNER, 0).unwrap();
    reg.get_member(guild_id, NON_MEMBER).unwrap();
}

#[test]
fn test_get_all_members() {
    let mut reg = GuildRegistry::new();
    let guild_id = new_guild(&mut reg, OWNER);
    let members = reg.get_all_members(guild_id);
    assert_eq!(members.len(), 1);
    reg.add_member(guild_id, 2, Role::Member, OWNER, 0).unwrap();
    reg.add_member(guild_id, 3, Role::Admin, OWNER, 0).unwrap();
    reg.add_member(guild_id, 4, Role::Contributor, OWNER, 0).unwrap();
    let members = reg.get_all_members(guild_id);
    assert_eq!(members.len(), 4);
}

#[test]
fn test_is_member() {
    let mut reg = GuildRegistry::new();
    let guild_id = new_guild(&mut reg, OWNER);
    assert_eq!(reg.is_member(guild_id, OWNER), true);
    assert_eq!(reg.is_member(guild_id, NON_MEMBER), false);
    reg.add_member(guild_id, MEMBER, Role::Member, OWNER, 0).unwrap();
    assert_eq!(reg.is_member(guild_id, MEMBER), true);
}

#[test]
fn test_has_permission() {
    let mut reg = GuildRegistry::new();
    let contributor: u64 = 4;
    let guild_id = new_guild(&mut reg, OWNER);
    reg.add_member(guild_id, ADMIN, Role::Admin, OWNER, 0).unwrap();
    reg.add_member(guild_id, MEMBER, Role::Member, OWNER, 0).unwrap();
    reg.add_member(guild_id, contributor, Role::Contributor, OWNER, 0).unwrap();

    assert_eq!(reg.has_permission(guild_id, OWNER, Role::Owner), true);
    assert_eq!(reg.has_permission(guild_id, OWNER, Role::Admin), true);
    assert_eq!(reg.has_permission(guild_id, OWNER, Role::Member), true);
    assert_eq!(reg.has_permission(guild_id, OWNER, Role::Contributor), true);

    assert_eq!(reg.has_permission(guild_id, ADMIN, Role::Owner), false);
    assert_eq!(reg.has_permission(guild_id, ADMIN, Role::Admin), true);
    assert_eq!(reg.has_permission(guild_id, ADMIN, Role::Member), true);
    assert_eq!(reg.has_permission(guild_id, ADMIN, Role::Contributor), true);

    assert_eq!(reg.has_permission(guild_id, MEMBER, Role::Owner), false);
    assert_eq!(reg.has_permission(guild_id, MEMBER, Role::Admin), false);
    assert_eq!(reg.has_permission(guild_id, MEMBER, Role::Member), true);
    assert_eq!(reg.has_permission(guild_id, MEMBER, Role::Contributor), true);

    assert_eq!(reg.has_permission(guild_id, contributor, Role::Owner), false);
    assert_eq!(reg.has_permission(guild_id, contributor, Role::Admin), false);
    assert_eq!(reg.has_permission(guild_id, contributor, Role::Member), false);
    assert_eq!(reg.has_permission(guild_id, contributor, Role::Contributor), true);
}

#[test]
fn test_full_guild_lifecycle() {
    let mut reg = GuildRegistry::new();
    let member1: u64 = 3;
    let member2: u64 = 4;
    let guild_id = reg
        .create_guild(
            "Community Guild".to_string(),
            "A thriving community".to_string(),
            OWNER,
            0,
        )
        .unwrap();
    assert_eq!(guild_id, 1u64);
    reg.add_member(guild_id, ADMIN, Role::Admin, OWNER, 0).unwrap();
    reg.add_member(guild_id, member1, Role::Member, ADMIN, 0).unwrap();
    reg.add_member(guild_id, member2, Role::Contributor, OWNER, 0).unwrap();
    let members = reg.get_all_members(guild_id);
    assert_eq!(members.len(), 4);
    reg.update_role(guild_id, member1, Role::Member, ADMIN).unwrap();
    reg.remove_member(guild_id, member1, member1).unwrap();
    let members = reg.get_all_members(guild_id);
    assert_eq!(members.len(), 3);
    assert_eq!(reg.is_member(guild_id, member1), false);
    assert_eq!(reg.is_member(guild_id, member2), true);
}

#[test]
fn test_admin_can_add_members_and_contributors() {
    let mut reg = GuildRegistry::new();
    let contributor: u64 = 4;
    let guild_id = new_guild(&mut reg, OWNER);
    reg.add_member(guild_id, ADMIN, Role::Admin, OWNER, 0).unwrap();
    let result1 = reg.add_member(guild_id, MEMBER, Role::Member, ADMIN, 0).unwrap();
    assert_eq!(result1, true);
    let result2 = reg
        .add_member(guild_id, contributor, Role::Contributor, ADMIN, 0)
        .unwrap();
    assert_eq!(result2, true);
    assert_eq!(reg.is_member(guild_id, MEMBER), true);
    assert_eq!(reg.is_member(guild_id, contributor), true);
}

#[test]
#[should_panic]
fn test_admin_cannot_add_owner() {
    let mut reg = GuildRegistry::new();
    let new_owner: u64 = 5;
    let guild_id = new_guild(&mut reg, OWNER);
    reg.add_member(guild_id, ADMIN, Role::Admin, OWNER, 0).unwrap();
    reg.add_member(guild_id, new_owner, Role::Owner, ADMIN, 0).unwrap();
}

#[test]
fn test_owner_count_tracks_membership() {
    let mut reg = GuildRegistry::new();
    let guild_id = new_guild(&mut reg, OWNER);
    assert_eq!(reg.owner_count(guild_id), 1);
    reg.add_member(guild_id, ADMIN, Role::Owner, OWNER, 0).unwrap();
    assert_eq!(reg.owner_count(guild_id), 2);
    reg.remove_member(guild_id, ADMIN, ADMIN).unwrap();
    // every guild keeps at least one Owner, whatever sequence of ops ran
    assert_eq!(reg.owner_count(guild_id), 1);
}
