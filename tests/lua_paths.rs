use flua::paths::{join_path, secure_path, split_path};
use mlua::Lua;

#[test]
fn test_lua_split_path() -> mlua::Result<()> {
    let lua = Lua::new();
    let split = lua.create_function(|_, path: String| Ok(split_path(&path)))?;
    lua.globals().set("split_path", split)?;

    let result: mlua::Table = lua.load(r#"return split_path("foo/bar/baz")"#).eval()?;
    let parts: Vec<String> = result.sequence_values().collect::<Result<_, _>>()?;

    assert_eq!(parts, vec!["foo", "bar", "baz"]);
    Ok(())
}

#[test]
fn test_lua_join_path() -> mlua::Result<()> {
    let lua = Lua::new();
    let join = lua.create_function(|_, parts: Vec<String>| Ok(join_path(parts)))?;
    lua.globals().set("join_path", join)?;

    let path: String = lua
        .load(r#"return join_path({"foo", "bar", "baz"})"#)
        .eval()?;

    assert!(path.ends_with("foo/bar/baz") || path.ends_with("foo\\bar\\baz"));
    Ok(())
}

#[test]
fn test_lua_secure_path_safe() -> mlua::Result<()> {
    let lua = Lua::new();
    let secure = lua.create_function(|_, path: String| Ok(secure_path(&path)))?;
    lua.globals().set("secure_path", secure)?;

    let is_safe: bool = lua.load(r#"return secure_path("some/safe/path")"#).eval()?;

    assert!(is_safe);
    Ok(())
}

#[test]
fn test_lua_secure_path_unsafe() -> mlua::Result<()> {
    let lua = Lua::new();
    let secure = lua.create_function(|_, path: String| Ok(secure_path(&path)))?;
    lua.globals().set("secure_path", secure)?;

    let is_safe: bool = lua
        .load(r#"return secure_path("../../etc/passwd")"#)
        .eval()?;

    assert!(!is_safe);
    Ok(())
}

#[test]
fn test_lua_combined_usage() -> mlua::Result<()> {
    let lua = Lua::new();

    lua.globals().set(
        "split_path",
        lua.create_function(|_, path: String| Ok(split_path(&path)))?,
    )?;
    lua.globals().set(
        "join_path",
        lua.create_function(|_, parts: Vec<String>| Ok(join_path(parts)))?,
    )?;
    lua.globals().set(
        "secure_path",
        lua.create_function(|_, path: String| match secure_path(&path) {
            Ok(p) => Ok(Some(p)),
            Err(_) => Ok(None),
        })?,
    )?;

    let (path, is_secure): (String, bool) = lua
        .load(
            r#"
        local parts = split_path("../../etc/passwd")
        local path = join_path(parts)
        local secure = secure_path(path) ~= nil
        return path, secure
        "#,
        )
        .eval()?;

    assert!(path.contains("etc") && path.find("passwd").is_some());
    assert!(!is_secure);
    Ok(())
}

#[test]
fn test_join_path_lua_binding() {
    let lua = Lua::new();

    let join_fn = lua
        .create_function(|_, parts: mlua::Table| {
            let mut vec = Vec::new();
            for pair in parts.sequence_values::<String>() {
                vec.push(pair?);
            }
            Ok(join_path(vec))
        })
        .unwrap();

    lua.globals().set("join_path", join_fn).unwrap();

    let result: String = lua
        .load(
            r#"
        return join_path({"home", "user", "docs"})
    "#,
        )
        .eval()
        .unwrap();

    assert_eq!(result, "home/user/docs");

    let result_empty: String = lua
        .load(
            r#"
        return join_path({})
    "#,
        )
        .eval()
        .unwrap();

    assert_eq!(result_empty, "");

    let result_single: String = lua
        .load(
            r#"
        return join_path({"folder"})
    "#,
        )
        .eval()
        .unwrap();

    assert_eq!(result_single, "folder");
}
