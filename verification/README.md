# pyrefly_django

Django support for a Python type checker, verified with Verus.

- `framework_config`: the string options that framework integrations own.
- `django_index`: the project-wide routing table for reverse relations — the
  scan of a module for the models its relation fields target, the table from
  model name to declaring modules, the readers of each model name, and the
  targets a rescan changed.
- `related_name`, `identifier`: the names of reverse accessors. A
  `related_name` must be a Python identifier: `_` or a character with the
  Unicode property `XID_Start`, then characters with `XID_Continue` (no
  keyword check). `unicode-ident` answers those two properties; the crate
  depends on it for that alone.
- `django_model`: reverse accessors and the other attributes Django
  synthesizes on models.
- `django_fields`, `django_enums`, `django_forms`, `django_settings`: field
  value types, `Choices` enums, form factories, and the settings that name the
  user model.
- `ast`: the part of a parsed Python module that these read.
- `collections`, `text`: the `starlark_map` collections and the string
  operations, with their contracts.

The type checker itself (inference, class lookup, specialization) lies
outside: it hands the library what it found as plain values, and the library
decides. `app/` holds the serialized form of the configuration and the
environment variable that names the settings module.
