# skilldo

The decision logic of the SkillDo skill manager, written in Verus and
proved against its contracts: one source of truth for AI agent skills,
synchronized to many coding tools and across devices.

- `src/` is the verified library. Profiles and their three-way merge
  (`profile`, `merge`, `merge_laws`), applying a merged profile (`sync`,
  `local_profile`), device pipelines (`device`), lossless backups
  (`backup`), source repair (`repair`), origin classification (`origin`,
  `managed`, `listing`), configuration (`app_config`, `settings`,
  `cli_rules`), explore sources and search (`explore`, `search`), GitHub
  answers and publishing (`github`, `publish`), WebDAV layout and replies
  (`webdav`), placing skills in tool directories (`tool_sync`), projects
  (`project`), and text helpers (`text`, `order`, `errors`). Each `law_*`
  proof function states a property that spans several functions.
- `app/` is the command line front end around it: argument parsing, the
  state file, the filesystem, Git, WebDAV and GitHub requests.
- `tests/` runs the library on concrete values.
