# mdview

A markdown viewer: GitHub flavoured markdown (tables, task lists,
strikethrough) with syntax-highlighted code, links between documents,
back/forward navigation, live reload, light and dark themes and inline
images, on the desktop and on Android.

The library in `src/` is verified with Verus. It holds the document model and
the markdown front end (`events`, `parser`, `document`), the handling of raw
HTML (`html`, `style`), everything the renderer decides before drawing
(`layout`: plain text, table of contents, styled runs, link actions, list
markers), code highlighting and its cache (`highlight`), image decoding
(`images`), link and path rules (`links`, `paths`), the navigation history
(`navigation`), the document state and its reloading (`viewer`), the replies
of the Android document bridge (`bridge`), the theme palette (`theme`) and
the string functions they share (`text`).

`app/` is the application around it: command line, the egui window and
widgets, the file watcher, image textures and the Android JNI bridge.
